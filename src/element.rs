//! A minimal HTML element tree and its serialization.
use vstd::prelude::*;
use vstd::string::StrSliceExecFns;
use vstd::string::StringExecFns;

verus! {

broadcast use vstd::std_specs::vec::axiom_vec_index_decreases;

/// One HTML element: tag, optional id, classes, attributes, text and children.
pub struct Element {
    pub tag: String,
    pub id: String,
    pub class_list: Vec<String>,
    pub children: Vec<Element>,
    pub text: String,
    /// (key, value) pairs, in insertion order
    pub attributes: Vec<(String, String)>,
}

/// The concatenation of the pieces, in order.
pub open spec fn concat_all(ss: Seq<Seq<char>>) -> Seq<char>
    decreases ss.len(),
{
    if ss.len() == 0 {
        Seq::empty()
    } else {
        concat_all(ss.drop_last()) + ss.last()
    }
}

/// The words of `s` joined by single spaces.
pub open spec fn join_spaced(ws: Seq<Seq<char>>) -> Seq<char>
    decreases ws.len(),
{
    if ws.len() == 0 {
        Seq::empty()
    } else if ws.len() == 1 {
        ws[0]
    } else {
        join_spaced(ws.drop_last()) + " "@ + ws.last()
    }
}

/// The pieces of `s` between single spaces: "a b" gives "a", "b";
/// "" gives one empty piece; two spaces in a row give an empty piece.
pub open spec fn split_spaces(s: Seq<char>) -> Seq<Seq<char>>
    decreases s.len(),
{
    if s.len() == 0 {
        seq![Seq::empty()]
    } else {
        let r = split_spaces(s.drop_last());
        if s.last() == ' ' {
            r.push(Seq::empty())
        } else {
            r.update(r.len() - 1, r.last().push(s.last()))
        }
    }
}

/// The attribute list as it stands in an opening tag: ` key="value"` for each pair.
pub open spec fn attrs_markup(attrs: Seq<(Seq<char>, Seq<char>)>) -> Seq<char>
    decreases attrs.len(),
{
    if attrs.len() == 0 {
        Seq::empty()
    } else {
        attrs_markup(attrs.drop_last()) + " "@ + attrs.last().0 + "=\""@ + attrs.last().1 + "\""@
    }
}

/// The opening tag: the id, class and attribute parts stand only when not empty.
pub open spec fn open_tag(
    tag: Seq<char>,
    id: Seq<char>,
    classes: Seq<Seq<char>>,
    attrs: Seq<(Seq<char>, Seq<char>)>,
) -> Seq<char> {
    "<"@ + tag
        + (if id.len() == 0 { Seq::empty() } else { " id=\""@ + id + "\""@ })
        + (if classes.len() == 0 { Seq::empty() } else { " class=\""@ + join_spaced(classes) + "\""@ })
        + attrs_markup(attrs)
        + ">"@
}

/// An element's HTML, given the HTML of its children laid end to end.
pub open spec fn markup(
    tag: Seq<char>,
    id: Seq<char>,
    classes: Seq<Seq<char>>,
    attrs: Seq<(Seq<char>, Seq<char>)>,
    text: Seq<char>,
    inner: Seq<char>,
) -> Seq<char> {
    open_tag(tag, id, classes, attrs) + text + inner + "</"@ + tag + ">"@
}

/// An element with only a tag, classes and text (and the given inner HTML).
pub open spec fn plain(tag: Seq<char>, classes: Seq<Seq<char>>, text: Seq<char>, inner: Seq<char>) -> Seq<char> {
    markup(tag, Seq::empty(), classes, Seq::empty(), text, inner)
}

impl Element {
    pub open spec fn classes(&self) -> Seq<Seq<char>> {
        self.class_list@.map_values(|c: String| c@)
    }

    pub open spec fn attrs(&self) -> Seq<(Seq<char>, Seq<char>)> {
        self.attributes@.map_values(|a: (String, String)| (a.0@, a.1@))
    }

    /// The HTML of the first `n` children, laid end to end.
    pub open spec fn children_html(&self, n: int) -> Seq<char>
        decreases *self, n,
        when 0 <= n <= self.children.len()
    {
        if n == 0 {
            Seq::empty()
        } else {
            self.children_html(n - 1) + self.children[n - 1].html()
        }
    }

    /// This element serialized: pre-order, children after the text.
    pub open spec fn html(&self) -> Seq<char>
        decreases *self, self.children.len() + 1,
    {
        markup(self.tag@, self.id@, self.classes(), self.attrs(), self.text@, self.children_html(self.children.len() as int))
    }
}

impl Element {
    /// A new element with the given tag and nothing else.
    pub fn create(tag: &str) -> (r: Element)
        ensures
            r.tag@ == tag@,
            r.id@.len() == 0,
            r.class_list@.len() == 0,
            r.attributes@.len() == 0,
            r.text@.len() == 0,
            r.children@.len() == 0,
            r.html() == plain(tag@, Seq::empty(), Seq::empty(), Seq::empty()),
    {
        let r = Element {
            tag: String::from_str(tag),
            id: String::new(),
            class_list: Vec::new(),
            children: Vec::new(),
            text: String::new(),
            attributes: Vec::new(),
        };
        assert(r.classes() =~= Seq::empty());
        assert(r.attrs() =~= Seq::empty());
        r
    }

    /// Puts `elem` last among the children.
    pub fn append(&mut self, elem: Element)
        ensures
            final(self).children@ == old(self).children@.push(elem),
            final(self).tag == old(self).tag,
            final(self).id == old(self).id,
            final(self).class_list == old(self).class_list,
            final(self).attributes == old(self).attributes,
            final(self).text == old(self).text,
            final(self).children_html(final(self).children.len() as int)
                == old(self).children_html(old(self).children.len() as int) + elem.html(),
    {
        let ghost before = *self;
        self.children.push(elem);
        proof {
            let n = before.children.len() as int;
            assert(before.children@.take(n) =~= self.children@.take(n));
            lemma_children_html_prefix(before, *self, n);
        }
    }

    /// Adds each space-separated piece of `class_name` as a class, in order.
    pub fn add_class(&mut self, class_name: &str)
        ensures
            final(self).classes() == old(self).classes() + split_spaces(class_name@),
            final(self).tag == old(self).tag,
            final(self).id == old(self).id,
            final(self).children == old(self).children,
            final(self).attributes == old(self).attributes,
            final(self).text == old(self).text,
    {
        let ghost s = class_name@;
        let ghost before = self.classes();
        let n = class_name.unicode_len();
        let mut start: usize = 0;
        let mut i: usize = 0;
        proof {
            assert(s.take(0) =~= Seq::<char>::empty());
            assert(before + split_spaces(s.take(0)).drop_last() =~= before);
            assert(s.subrange(0, 0) =~= Seq::<char>::empty());
        }
        while i < n
            invariant
                n == s.len(),
                s == class_name@,
                0 <= start <= i <= n,
                self.classes() == before + split_spaces(s.take(i as int)).drop_last(),
                split_spaces(s.take(i as int)).last() == s.subrange(start as int, i as int),
                split_spaces(s.take(i as int)).len() >= 1,
                self.tag == old(self).tag,
                self.id == old(self).id,
                self.children == old(self).children,
                self.attributes == old(self).attributes,
                self.text == old(self).text,
            decreases n - i,
        {
            let c = class_name.get_char(i);
            let ghost t = s.take(i as int);
            let ghost t1 = s.take(i as int + 1);
            assert(t1.drop_last() =~= t);
            assert(t1.last() == c);
            if c == ' ' {
                let piece = class_name.substring_char(start, i);
                let ghost old_list = self.class_list@;
                self.class_list.push(String::from_str(piece));
                proof {
                    assert(self.class_list@ == old_list.push(self.class_list@.last()));
                    assert(self.classes() =~= before + split_spaces(t).drop_last() + seq![piece@]);
                    assert(split_spaces(t1) == split_spaces(t).push(Seq::empty()));
                    assert(split_spaces(t1).drop_last() =~= split_spaces(t));
                    assert(split_spaces(t) =~= split_spaces(t).drop_last().push(split_spaces(t).last()));
                    assert(before + split_spaces(t1).drop_last() =~= before + split_spaces(t).drop_last() + seq![piece@]);
                    assert(s.subrange(i as int + 1, i as int + 1) =~= Seq::<char>::empty());
                }
                start = i + 1;
            } else {
                proof {
                    let r = split_spaces(t);
                    assert(split_spaces(t1) == r.update(r.len() - 1, r.last().push(c)));
                    assert(split_spaces(t1).drop_last() =~= r.drop_last());
                    assert(s.subrange(start as int, i as int + 1) =~= s.subrange(start as int, i as int).push(c));
                }
            }
            i = i + 1;
        }
        let piece = class_name.substring_char(start, n);
        let ghost old_list = self.class_list@;
        self.class_list.push(String::from_str(piece));
        proof {
            assert(s.take(n as int) =~= s);
            let r = split_spaces(s);
            assert(r =~= r.drop_last().push(r.last()));
            assert(self.class_list@ == old_list.push(self.class_list@.last()));
            assert(self.classes() =~= before + r.drop_last() + seq![piece@]);
            assert(self.classes() =~= before + r);
        }
    }

    /// Sets the id.
    pub fn set_id(&mut self, id: String)
        ensures
            final(self).id == id,
            final(self).tag == old(self).tag,
            final(self).class_list == old(self).class_list,
            final(self).children == old(self).children,
            final(self).attributes == old(self).attributes,
            final(self).text == old(self).text,
    {
        self.id = id;
    }

    /// Adds the attribute `key="val"` after those already there; a key may repeat.
    pub fn set_attribute(&mut self, key: &str, val: &str)
        ensures
            final(self).attrs() == old(self).attrs().push((key@, val@)),
            final(self).tag == old(self).tag,
            final(self).id == old(self).id,
            final(self).class_list == old(self).class_list,
            final(self).children == old(self).children,
            final(self).text == old(self).text,
    {
        let attribute = (String::from_str(key), String::from_str(val));
        self.attributes.push(attribute);
        assert(final(self).attrs() =~= old(self).attrs().push((key@, val@)));
    }

    /// Replaces the text.
    pub fn set_text(&mut self, text: &String)
        ensures
            final(self).text@ == text@,
            final(self).tag == old(self).tag,
            final(self).id == old(self).id,
            final(self).class_list == old(self).class_list,
            final(self).children == old(self).children,
            final(self).attributes == old(self).attributes,
    {
        self.text = String::from_str(text.as_str());
    }

    /// The element as HTML: `<tag id=".." class=".." k="v">text children</tag>`,
    /// where the id, class and attribute parts stand only when not empty.
    pub fn to_string(&self) -> (r: String)
        ensures
            r@ == self.html(),
        decreases *self,
    {
        let mut inner = String::new();
        let mut i: usize = 0;
        while i < self.children.len()
            invariant
                i <= self.children.len(),
                inner@ == self.children_html(i as int),
            decreases self.children.len() - i,
        {
            let child = self.children[i].to_string();
            inner.append(child.as_str());
            i = i + 1;
        }
        let mut out = String::from_str("<");
        out.append(self.tag.as_str());
        if !self.id.as_str().is_empty() {
            out.append(" id=\"");
            out.append(self.id.as_str());
            out.append("\"");
        }
        if self.class_list.len() != 0 {
            let joined = join_with_spaces(&self.class_list);
            out.append(" class=\"");
            out.append(joined.as_str());
            out.append("\"");
        }
        let attrs = attributes_to_html(&self.attributes);
        out.append(attrs.as_str());
        out.append(">");
        out.append(self.text.as_str());
        out.append(inner.as_str());
        out.append("</");
        out.append(self.tag.as_str());
        out.append(">");
        assert(out@ =~= self.html());
        out
    }
}

/// The HTML of the first `n` children depends on those children alone.
proof fn lemma_children_html_prefix(a: Element, b: Element, n: int)
    requires
        0 <= n <= a.children.len(),
        n <= b.children.len(),
        a.children@.take(n) == b.children@.take(n),
    ensures
        a.children_html(n) == b.children_html(n),
    decreases n,
{
    if n > 0 {
        assert(a.children@.take(n - 1) =~= a.children@.take(n).take(n - 1));
        assert(b.children@.take(n - 1) =~= b.children@.take(n).take(n - 1));
        lemma_children_html_prefix(a, b, n - 1);
        assert(a.children[n - 1] == a.children@.take(n)[n - 1]);
        assert(b.children[n - 1] == b.children@.take(n)[n - 1]);
    }
}

/// The children's HTML laid end to end is the concatenation of each child's HTML.
proof fn lemma_children_html_concat(e: Element, n: int)
    requires
        0 <= n <= e.children.len(),
    ensures
        e.children_html(n) == concat_all(Seq::new(n as nat, |i: int| e.children[i].html())),
    decreases n,
{
    if n > 0 {
        lemma_children_html_concat(e, n - 1);
        assert(Seq::new(n as nat, |i: int| e.children[i].html()).drop_last()
            =~= Seq::new((n - 1) as nat, |i: int| e.children[i].html()));
    }
}

/// An element with no id, classes, attributes, text or children serializes to
/// `<tag></tag>`.
pub proof fn lemma_bare_element(e: Element)
    requires
        e.id@.len() == 0,
        e.class_list@.len() == 0,
        e.attributes@.len() == 0,
        e.text@.len() == 0,
        e.children@.len() == 0,
    ensures
        e.html() == "<"@ + e.tag@ + ">"@ + "</"@ + e.tag@ + ">"@,
{
    assert(e.html() =~= "<"@ + e.tag@ + ">"@ + "</"@ + e.tag@ + ">"@);
}

/// An element's children serialize one after the other, in the order they were
/// appended, after the element's text and before its closing tag.
pub proof fn lemma_children_in_order(e: Element)
    ensures
        e.html() == open_tag(e.tag@, e.id@, e.classes(), e.attrs()) + e.text@
            + concat_all(Seq::new(e.children.len() as nat, |i: int| e.children[i].html()))
            + "</"@ + e.tag@ + ">"@,
{
    lemma_children_html_concat(e, e.children.len() as int);
}

/// The class names joined by single spaces.
fn join_with_spaces(classes: &Vec<String>) -> (r: String)
    ensures
        r@ == join_spaced(classes@.map_values(|c: String| c@)),
{
    let ghost ws = classes@.map_values(|c: String| c@);
    let mut r = String::new();
    let mut i: usize = 0;
    while i < classes.len()
        invariant
            i <= classes.len(),
            ws == classes@.map_values(|c: String| c@),
            r@ == join_spaced(ws.take(i as int)),
        decreases classes.len() - i,
    {
        if i > 0 {
            r.append(" ");
        }
        r.append(classes[i].as_str());
        proof {
            assert(ws.take(i as int + 1).drop_last() =~= ws.take(i as int));
            assert(ws.take(i as int + 1).last() == ws[i as int]);
            assert(ws.take(i as int + 1).len() == i + 1);
            if i == 0 {
                assert(ws.take(1)[0] == ws[0]);
            }
        }
        i = i + 1;
    }
    assert(ws.take(i as int) =~= ws);
    r
}

/// The attributes as they stand in an opening tag: ` key="value"` for each pair.
fn attributes_to_html(attributes: &Vec<(String, String)>) -> (r: String)
    ensures
        r@ == attrs_markup(attributes@.map_values(|a: (String, String)| (a.0@, a.1@))),
{
    let ghost xs = attributes@.map_values(|a: (String, String)| (a.0@, a.1@));
    let mut r = String::new();
    let mut i: usize = 0;
    while i < attributes.len()
        invariant
            i <= attributes.len(),
            xs == attributes@.map_values(|a: (String, String)| (a.0@, a.1@)),
            r@ == attrs_markup(xs.take(i as int)),
        decreases attributes.len() - i,
    {
        let (key, val) = &attributes[i];
        r.append(" ");
        r.append(key.as_str());
        r.append("=\"");
        r.append(val.as_str());
        r.append("\"");
        proof {
            assert(xs.take(i as int + 1).drop_last() =~= xs.take(i as int));
        }
        i = i + 1;
    }
    assert(xs.take(i as int) =~= xs);
    r
}

} // verus!
