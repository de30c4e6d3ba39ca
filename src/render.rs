//! The calendar page: head, navigation bar, legend of events, and one block per month.
use vstd::prelude::*;
use vstd::string::StringExecFns;
use crate::date::{
    decimal, decimal_string, digit_char, is_valid_date, month_name, signed_decimal, signed_decimal_string,
    weekday_from_sunday, weekday_number, MonthNames,
};
use crate::date::CalDate;
use crate::input::Event;
use crate::schedule::{
    all_valid, calc_calendar, dates_valid, first_month, has_entries, last_month, lemma_first_last_month, lemma_span_days,
    month_span, schedule_of, span, tagged, Entry, ScheduleError,
};
use crate::element::{concat_all, markup, plain, split_spaces, Element};
use crate::input::Input;

verus! {

pub const MATERIALIZE_CSS: &'static str = "https://cdnjs.cloudflare.com/ajax/libs/materialize/1.0.0/css/materialize.min.css";

pub const MATERIALIZE_JS: &'static str = "https://cdnjs.cloudflare.com/ajax/libs/materialize/1.0.0/js/materialize.min.js";

pub const MATERIAL_ICONS: &'static str = "https://fonts.googleapis.com/icon?family=Material+Icons";

pub const CUSTOM_CSS: &'static str = "custom.css";

/// An element with attributes only.
pub open spec fn with_attrs(tag: Seq<char>, attrs: Seq<(Seq<char>, Seq<char>)>) -> Seq<char> {
    markup(tag, Seq::empty(), Seq::empty(), attrs, Seq::empty(), Seq::empty())
}

/// The page head: the title, then the style sheets and script the page links to.
pub open spec fn head_html(title: Seq<char>) -> Seq<char> {
    plain("head"@, Seq::empty(), Seq::empty(),
        plain("title"@, Seq::empty(), title, Seq::empty())
        + with_attrs("link"@, seq![("rel"@, "stylesheet"@), ("href"@, MATERIALIZE_CSS@)])
        + with_attrs("script"@, seq![("src"@, MATERIALIZE_JS@)])
        + with_attrs("link"@, seq![("href"@, MATERIAL_ICONS@), ("rel"@, "stylesheet"@)])
        + with_attrs("link"@, seq![("rel"@, "stylesheet"@), ("href"@, CUSTOM_CSS@)]))
}

/// The navigation bar: the title, centered.
pub open spec fn nav_html(title: Seq<char>) -> Seq<char> {
    plain("nav"@, Seq::empty(), Seq::empty(),
        plain("div"@, split_spaces("nav-wrapper"@), Seq::empty(),
            plain("a"@, split_spaces("brand-logo center"@), title, Seq::empty())))
}

/// One line of the legend: a marker carrying the event's index, then its name.
pub open spec fn legend_item_html(i: int, name: Seq<char>) -> Seq<char> {
    plain("li"@, Seq::empty(), Seq::empty(),
        markup("span"@, Seq::empty(), Seq::empty(), seq![("event_index"@, decimal(i as nat))], "  "@, Seq::empty())
        + plain("span"@, split_spaces("description"@), name, Seq::empty()))
}

/// The names of the events, in order.
pub open spec fn event_names(input: &Input) -> Seq<Seq<char>> {
    Seq::new(input.events.len() as nat, |i: int| input.events[i].name@)
}

/// The legend: one line per event, in order.
pub open spec fn header_html(names: Seq<Seq<char>>) -> Seq<char> {
    plain("header"@, Seq::empty(), Seq::empty(),
        plain("div"@, split_spaces("event-description"@), Seq::empty(),
            plain("ul"@, split_spaces("collection"@), Seq::empty(),
                concat_all(Seq::new(names.len(), |i: int| legend_item_html(i, names[i]))))))
}

/// A wrapper column holding one material icon.
pub open spec fn icon_html(icon: Seq<char>) -> Seq<char> {
    plain("div"@, split_spaces("col s2"@), Seq::empty(),
        plain("i"@, split_spaces("material-icons"@), icon, Seq::empty()))
}

/// The title of a month's block: month name over year, between two arrows.
pub open spec fn calendar_title_html(month: Seq<char>, year: int) -> Seq<char> {
    plain("div"@, split_spaces("calendar-title row"@), Seq::empty(),
        icon_html("navigate_before"@)
        + plain("div"@, split_spaces("col s8 center-align date"@), Seq::empty(),
            plain("span"@, split_spaces("month"@), month, Seq::empty())
            + plain("br"@, Seq::empty(), Seq::empty(), Seq::empty())
            + plain("span"@, split_spaces("year"@), signed_decimal(year), Seq::empty()))
        + icon_html("navigate_next"@))
}

/// html::head
pub fn create_head(input: &Input) -> (r: Element)
    ensures
        r.html() == head_html(input.title@),
{
    let mut head = Element::create("head");

    let mut title = Element::create("title");
    title.set_text(&input.title);

    let mut materialize_css = Element::create("link");
    materialize_css.set_attribute("rel", "stylesheet");
    materialize_css.set_attribute("href", MATERIALIZE_CSS);

    let mut materialize_js = Element::create("script");
    materialize_js.set_attribute("src", MATERIALIZE_JS);

    let mut material_icons = Element::create("link");
    material_icons.set_attribute("href", MATERIAL_ICONS);
    material_icons.set_attribute("rel", "stylesheet");

    let mut custom = Element::create("link");
    custom.set_attribute("rel", "stylesheet");
    custom.set_attribute("href", CUSTOM_CSS);

    assert(materialize_css.attrs() =~= seq![("rel"@, "stylesheet"@), ("href"@, MATERIALIZE_CSS@)]);
    assert(materialize_js.attrs() =~= seq![("src"@, MATERIALIZE_JS@)]);
    assert(material_icons.attrs() =~= seq![("href"@, MATERIAL_ICONS@), ("rel"@, "stylesheet"@)]);
    assert(custom.attrs() =~= seq![("rel"@, "stylesheet"@), ("href"@, CUSTOM_CSS@)]);

    head.append(title);
    head.append(materialize_css);
    head.append(materialize_js);
    head.append(material_icons);
    head.append(custom);
    assert(head.html() =~= head_html(input.title@));
    head
}

/// html::body::nav
pub fn create_nav(input: &Input) -> (r: Element)
    ensures
        r.html() == nav_html(input.title@),
{
    let mut a = Element::create("a");
    a.add_class("brand-logo center");
    a.set_text(&input.title);

    let mut div = Element::create("div");
    div.add_class("nav-wrapper");
    div.append(a);

    let mut nav = Element::create("nav");
    nav.append(div);
    assert(a.classes() =~= split_spaces("brand-logo center"@));
    assert(div.classes() =~= split_spaces("nav-wrapper"@));
    assert(nav.html() =~= nav_html(input.title@));
    nav
}

/// html::body::main::header: the legend of the events.
pub fn create_header(input: &Input) -> (r: Element)
    ensures
        r.html() == header_html(event_names(input)),
{
    let ghost names = event_names(input);
    let ghost items = Seq::new(names.len(), |i: int| legend_item_html(i, names[i]));
    let mut header = Element::create("header");
    let mut div = Element::create("div");
    div.add_class("event-description");

    let mut ul = Element::create("ul");
    ul.add_class("collection");
    assert(ul.classes() =~= split_spaces("collection"@));
    assert(items.take(0) =~= Seq::<Seq<char>>::empty());

    let mut i: usize = 0;
    while i < input.events.len()
        invariant
            i <= input.events.len(),
            names == event_names(input),
            items == Seq::new(names.len(), |i: int| legend_item_html(i, names[i])),
            ul.tag@ == "ul"@,
            ul.id@.len() == 0,
            ul.classes() == split_spaces("collection"@),
            ul.attrs() == Seq::<(Seq<char>, Seq<char>)>::empty(),
            ul.text@.len() == 0,
            ul.children_html(ul.children.len() as int) == concat_all(items.take(i as int)),
        decreases input.events.len() - i,
    {
        let mut li = Element::create("li");
        let mut span_marker = Element::create("span");
        span_marker.set_text(&String::from_str("  "));
        let index_text = decimal_string(i as u64);
        span_marker.set_attribute("event_index", index_text.as_str());
        let mut span_description = Element::create("span");
        span_description.set_text(&input.events[i].name);
        span_description.add_class("description");
        li.append(span_marker);
        li.append(span_description);
        proof {
            assert(span_marker.attrs() =~= seq![("event_index"@, decimal(i as nat))]);
            assert(span_description.classes() =~= split_spaces("description"@));
            assert(li.html() =~= legend_item_html(i as int, names[i as int]));
            assert(items.take(i as int + 1).drop_last() =~= items.take(i as int));
        }
        ul.append(li);
        i = i + 1;
    }
    assert(items.take(i as int) =~= items);

    div.append(ul);
    header.append(div);
    assert(div.classes() =~= split_spaces("event-description"@));
    assert(header.html() =~= header_html(names));
    header
}

/// A wrapper column holding one material icon.
fn create_icon(icon: &str) -> (r: Element)
    ensures
        r.html() == icon_html(icon@),
{
    let mut div = Element::create("div");
    div.add_class("col s2");
    let mut i = Element::create("i");
    i.add_class("material-icons");
    i.set_text(&String::from_str(icon));
    div.append(i);
    assert(div.classes() =~= split_spaces("col s2"@));
    assert(i.classes() =~= split_spaces("material-icons"@));
    assert(div.html() =~= icon_html(icon@));
    div
}

/// html::body::main::calendars::calendar::calendar-title
pub fn create_calendar_title(month: String, year: i32) -> (r: Element)
    ensures
        r.html() == calendar_title_html(month@, year as int),
{
    let mut title = Element::create("div");
    title.add_class("calendar-title row");

    let before = create_icon("navigate_before");
    title.append(before);

    let mut div = Element::create("div");
    div.add_class("col s8 center-align date");

    let mut span_month = Element::create("span");
    span_month.add_class("month");
    span_month.set_text(&month);

    let br = Element::create("br");

    let mut span_year = Element::create("span");
    span_year.add_class("year");
    span_year.set_text(&signed_decimal_string(year));

    div.append(span_month);
    div.append(br);
    div.append(span_year);
    title.append(div);

    let next = create_icon("navigate_next");
    title.append(next);

    assert(title.classes() =~= split_spaces("calendar-title row"@));
    assert(div.classes() =~= split_spaces("col s8 center-align date"@));
    assert(span_month.classes() =~= split_spaces("month"@));
    assert(span_year.classes() =~= split_spaces("year"@));
    assert(title.html() =~= calendar_title_html(month@, year as int));
    title
}

/// The label of weekday column `j`, Sunday first.
pub open spec fn weekday_label(j: int) -> Seq<char> {
    if j == 0 { "Sun."@ }
    else if j == 1 { "Mon."@ }
    else if j == 2 { "Tue."@ }
    else if j == 3 { "Wed."@ }
    else if j == 4 { "Thu."@ }
    else if j == 5 { "Fri."@ }
    else { "Sat."@ }
}

/// The classes of weekday column `j`: Sundays red, Saturdays blue.
pub open spec fn column_classes(j: int) -> Seq<Seq<char>> {
    split_spaces("center-align"@)
        + (if j == 0 { split_spaces("red-text"@) } else { Seq::empty() })
        + (if j == 6 { split_spaces("blue-text"@) } else { Seq::empty() })
}

/// The header row of a month's table: the seven weekdays, Sunday first.
pub open spec fn thead_html() -> Seq<char> {
    plain("thead"@, Seq::empty(), Seq::empty(),
        plain("tr"@, Seq::empty(), Seq::empty(),
            concat_all(Seq::new(7, |j: int| plain("th"@, column_classes(j), weekday_label(j), Seq::empty())))))
}

/// How many days of the month stand in the cells before cell `c` (row-major,
/// seven to a row), where a day goes in the first free cell of its weekday's column.
pub open spec fn placed(ws: Seq<int>, c: int) -> int
    decreases c,
{
    if c <= 0 {
        0
    } else {
        let p = placed(ws, c - 1);
        if p < ws.len() && ws[p] == (c - 1) % 7 { p + 1 } else { p }
    }
}

/// The text of cell `c`: the number of the day placed there, or nothing.
pub open spec fn cell_text(ws: Seq<int>, c: int) -> Seq<char> {
    let p = placed(ws, c);
    if p < ws.len() && ws[p] == c % 7 { decimal((p + 1) as nat) } else { Seq::empty() }
}

pub open spec fn cell_html(ws: Seq<int>, c: int) -> Seq<char> {
    plain("td"@, column_classes(c % 7), cell_text(ws, c), Seq::empty())
}

pub open spec fn row_html(ws: Seq<int>, r: int) -> Seq<char> {
    plain("tr"@, Seq::empty(), Seq::empty(), concat_all(Seq::new(7, |j: int| cell_html(ws, 7 * r + j))))
}

/// The body of a month's table: five rows of seven cells.
pub open spec fn tbody_html(ws: Seq<int>) -> Seq<char> {
    plain("tbody"@, Seq::empty(), Seq::empty(), concat_all(Seq::new(5, |r: int| row_html(ws, r))))
}

/// A month's table, given the weekday (Sunday = 0) of each of its days in order.
pub open spec fn table_html(ws: Seq<int>) -> Seq<char> {
    plain("table"@, split_spaces("calendar-body"@), Seq::empty(), thead_html() + tbody_html(ws))
}

/// The weekday of each day of a run of the schedule.
pub open spec fn weekdays_of(days: Seq<Entry>) -> Seq<int> {
    days.map_values(|e: Entry| weekday_number(e.0.year as int, e.0.month as int, e.0.day as int))
}

/// A cell with the classes of column `j`.
fn create_cell(tag: &str, j: usize) -> (r: Element)
    requires
        j < 7,
    ensures
        r.tag@ == tag@,
        r.id@.len() == 0,
        r.classes() == column_classes(j as int),
        r.attrs() == Seq::<(Seq<char>, Seq<char>)>::empty(),
        r.text@.len() == 0,
        r.children@.len() == 0,
{
    let mut cell = Element::create(tag);
    cell.add_class("center-align");
    if j == 0 {
        cell.add_class("red-text");
    }
    if j == 6 {
        cell.add_class("blue-text");
    }
    assert(cell.classes() =~= column_classes(j as int));
    cell
}

fn weekday_text(j: usize) -> (r: &'static str)
    requires
        j < 7,
    ensures
        r@ == weekday_label(j as int),
{
    match j {
        0 => "Sun.",
        1 => "Mon.",
        2 => "Tue.",
        3 => "Wed.",
        4 => "Thu.",
        5 => "Fri.",
        _ => "Sat.",
    }
}

/// The header of a month's table.
fn create_thead() -> (r: Element)
    ensures
        r.html() == thead_html(),
{
    let ghost ths = Seq::new(7, |j: int| plain("th"@, column_classes(j), weekday_label(j), Seq::empty()));
    let mut thead = Element::create("thead");
    let mut tr = Element::create("tr");
    assert(ths.take(0) =~= Seq::<Seq<char>>::empty());
    let mut j: usize = 0;
    while j < 7
        invariant
            j <= 7,
            ths == Seq::new(7, |j: int| plain("th"@, column_classes(j), weekday_label(j), Seq::empty())),
            tr.tag@ == "tr"@,
            tr.id@.len() == 0,
            tr.class_list@.len() == 0,
            tr.attrs() == Seq::<(Seq<char>, Seq<char>)>::empty(),
            tr.text@.len() == 0,
            tr.children_html(tr.children.len() as int) == concat_all(ths.take(j as int)),
        decreases 7 - j,
    {
        let mut th = create_cell("th", j);
        th.set_text(&String::from_str(weekday_text(j)));
        proof {
            assert(ths.take(j as int + 1).drop_last() =~= ths.take(j as int));
        }
        tr.append(th);
        j = j + 1;
    }
    assert(ths.take(7) =~= ths);
    thead.append(tr);
    assert(tr.classes() =~= Seq::<Seq<char>>::empty());
    thead
}

/// html::body::main::calendars::calendar::table: the month's days laid out under
/// their weekdays, Sunday first, five rows of seven.
pub fn create_calendar_table(schedule_monthly: &Vec<Entry>) -> (r: Element)
    requires
        all_valid(schedule_monthly@),
    ensures
        r.html() == table_html(weekdays_of(schedule_monthly@)),
{
    let ghost ws = weekdays_of(schedule_monthly@);
    let mut weekdays: Vec<u32> = Vec::new();
    let mut k: usize = 0;
    while k < schedule_monthly.len()
        invariant
            k <= schedule_monthly.len(),
            all_valid(schedule_monthly@),
            ws == weekdays_of(schedule_monthly@),
            weekdays@.len() == k,
            forall|t: int| 0 <= t < k ==> weekdays@[t] as int == ws[t] && weekdays@[t] < 7,
        decreases schedule_monthly.len() - k,
    {
        let (day, _) = schedule_monthly[k];
        assert(is_valid_date(schedule_monthly@[k as int].0.year as int, schedule_monthly@[k as int].0.month as int, schedule_monthly@[k as int].0.day as int));
        let w = weekday_from_sunday(day.year, day.month, day.day);
        weekdays.push(w);
        assert(weekdays@[k as int] == w);
        assert(ws[k as int] == weekday_number(day.year as int, day.month as int, day.day as int));
        k = k + 1;
    }

    let mut table = Element::create("table");
    table.add_class("calendar-body");
    let thead = create_thead();
    table.append(thead);

    let ghost rows = Seq::new(5, |r: int| row_html(ws, r));
    let mut tbody = Element::create("tbody");
    let mut index: usize = 0;
    assert(rows.take(0) =~= Seq::<Seq<char>>::empty());
    let mut i: usize = 0;
    while i < 5
        invariant
            i <= 5,
            ws == weekdays_of(schedule_monthly@),
            weekdays@.len() == ws.len(),
            forall|t: int| 0 <= t < ws.len() ==> weekdays@[t] as int == ws[t],
            rows == Seq::new(5, |r: int| row_html(ws, r)),
            index as int == placed(ws, 7 * i),
            index <= 7 * i,
            tbody.tag@ == "tbody"@,
            tbody.id@.len() == 0,
            tbody.class_list@.len() == 0,
            tbody.attrs() == Seq::<(Seq<char>, Seq<char>)>::empty(),
            tbody.text@.len() == 0,
            tbody.children_html(tbody.children.len() as int) == concat_all(rows.take(i as int)),
        decreases 5 - i,
    {
        let ghost cells = Seq::new(7, |j: int| cell_html(ws, 7 * i + j));
        let mut tr = Element::create("tr");
        assert(cells.take(0) =~= Seq::<Seq<char>>::empty());
        let mut j: usize = 0;
        while j < 7
            invariant
                i < 5,
                j <= 7,
                ws == weekdays_of(schedule_monthly@),
                weekdays@.len() == ws.len(),
                forall|t: int| 0 <= t < ws.len() ==> weekdays@[t] as int == ws[t],
                cells == Seq::new(7, |j: int| cell_html(ws, 7 * i + j)),
                index as int == placed(ws, 7 * i + j),
                index <= 7 * i + j,
                tr.tag@ == "tr"@,
                tr.id@.len() == 0,
                tr.class_list@.len() == 0,
                tr.attrs() == Seq::<(Seq<char>, Seq<char>)>::empty(),
                tr.text@.len() == 0,
                tr.children_html(tr.children.len() as int) == concat_all(cells.take(j as int)),
            decreases 7 - j,
        {
            let ghost c = 7 * i + j;
            let mut td = create_cell("td", j);
            assert(c % 7 == j);
            if index < weekdays.len() && weekdays[index] == j as u32 {
                let text = decimal_string((index + 1) as u64);
                td.set_text(&text);
                index = index + 1;
            }
            proof {
                assert(td.html() == cell_html(ws, c));
                assert(cells.take(j as int + 1).drop_last() =~= cells.take(j as int));
            }
            tr.append(td);
            j = j + 1;
        }
        assert(cells.take(7) =~= cells);
        assert(tr.classes() =~= Seq::<Seq<char>>::empty());
        proof {
            assert(tr.html() == row_html(ws, i as int));
            assert(rows.take(i as int + 1).drop_last() =~= rows.take(i as int));
        }
        tbody.append(tr);
        i = i + 1;
    }
    assert(rows.take(5) =~= rows);
    assert(tbody.classes() =~= Seq::<Seq<char>>::empty());
    table.append(tbody);
    assert(table.classes() =~= split_spaces("calendar-body"@));
    assert(table.html() =~= table_html(ws));
    table
}

/// The schedule cut into runs of consecutive days of one month.
pub open spec fn month_runs(s: Seq<Entry>) -> Seq<Seq<Entry>>
    decreases s.len(),
{
    if s.len() == 0 {
        Seq::empty()
    } else {
        let r = month_runs(s.drop_last());
        if r.len() > 0 && r.last().last().0.month == s.last().0.month {
            r.update(r.len() - 1, r.last().push(s.last()))
        } else {
            r.push(seq![s.last()])
        }
    }
}

/// Cuts the schedule into runs of consecutive days of one month.
fn split_by_month(schedule: &Vec<Entry>) -> (r: Vec<Vec<Entry>>)
    ensures
        r@.map_values(|g: Vec<Entry>| g@) == month_runs(schedule@),
        forall|k: int| 0 <= k < r@.len() ==> (#[trigger] r@[k])@.len() > 0,
        forall|k: int, t: int|
            0 <= k < r@.len() && 0 <= t < r@[k]@.len() ==> schedule@.contains(#[trigger] r@[k]@[t]),
{
    let mut groups: Vec<Vec<Entry>> = Vec::new();
    let mut current: Vec<Entry> = Vec::new();
    let mut i: usize = 0;
    assert(schedule@.take(0) =~= Seq::<Entry>::empty());
    assert(groups@.map_values(|g: Vec<Entry>| g@) =~= Seq::<Seq<Entry>>::empty());
    while i < schedule.len()
        invariant
            i <= schedule.len(),
            i == 0 <==> current@.len() == 0,
            (if current@.len() == 0 {
                groups@.map_values(|g: Vec<Entry>| g@)
            } else {
                groups@.map_values(|g: Vec<Entry>| g@).push(current@)
            }) == month_runs(schedule@.take(i as int)),
            forall|k: int, t: int|
                0 <= k < groups@.len() && 0 <= t < groups@[k]@.len() ==> schedule@.contains(#[trigger] groups@[k]@[t]),
            forall|t: int| 0 <= t < current@.len() ==> schedule@.contains(#[trigger] current@[t]),
            forall|k: int| 0 <= k < groups@.len() ==> (#[trigger] groups@[k])@.len() > 0,
        decreases schedule.len() - i,
    {
        let entry = schedule[i];
        let ghost gv = groups@.map_values(|g: Vec<Entry>| g@);
        let ghost t1 = schedule@.take(i as int + 1);
        assert(t1.drop_last() =~= schedule@.take(i as int));
        assert(t1.last() == entry);
        assert(schedule@.contains(entry)) by {
            assert(schedule@[i as int] == entry);
        }
        if current.len() > 0 && current[current.len() - 1].0.month != entry.0.month {
            let full = current;
            groups.push(full);
            current = Vec::new();
            current.push(entry);
            proof {
                assert(groups@.map_values(|g: Vec<Entry>| g@) =~= gv.push(full@));
                assert(current@ =~= seq![entry]);
            }
        } else {
            let ghost before = current@;
            current.push(entry);
            proof {
                if before.len() > 0 {
                    let r = gv.push(before);
                    assert(r.last() == before);
                    assert(r.update(r.len() - 1, before.push(entry)) =~= gv.push(current@));
                } else {
                    assert(current@ =~= seq![entry]);
                }
            }
        }
        i = i + 1;
    }
    assert(schedule@.take(i as int) =~= schedule@);
    if current.len() > 0 {
        let ghost gv = groups@.map_values(|g: Vec<Entry>| g@);
        let ghost cv = current@;
        groups.push(current);
        assert(groups@.map_values(|g: Vec<Entry>| g@) =~= gv.push(cv));
    }
    groups
}

/// The block of one month: its title, then its table.
pub open spec fn calendar_html(year: int, run: Seq<Entry>) -> Seq<char> {
    plain("div"@, split_spaces("calendar"@), Seq::empty(),
        calendar_title_html(month_name(run[0].0.month - 1), year) + table_html(weekdays_of(run)))
}

/// One block per month of the schedule.
pub open spec fn calendars_html(year: int, schedule: Seq<Entry>) -> Seq<char> {
    let runs = month_runs(schedule);
    plain("div"@, split_spaces("calendars"@), Seq::empty(),
        concat_all(Seq::new(runs.len(), |k: int| calendar_html(year, runs[k]))))
}

/// The block of one month.
fn create_month(year: i32, group: &Vec<Entry>) -> (r: Element)
    requires
        group@.len() > 0,
        all_valid(group@),
    ensures
        r.html() == calendar_html(year as int, group@),
{
    let mut calendar = Element::create("div");
    calendar.add_class("calendar");
    let first = group[0];
    assert(is_valid_date(group@[0].0.year as int, group@[0].0.month as int, group@[0].0.day as int));
    let month_name = match MonthNames::from_u32(first.0.month - 1) {
        Some(m) => m.name(),
        None => String::new(),
    };
    let title = create_calendar_title(month_name, year);
    calendar.append(title);
    let table = create_calendar_table(group);
    calendar.append(table);
    assert(calendar.classes() =~= split_spaces("calendar"@));
    calendar
}

/// html::body::main::calendars: one block per month that the events touch.
pub fn create_calendar(input: &Input) -> (r: Result<Element, ScheduleError>)
    ensures
        page_result(input, r),
        r matches Ok(e) ==> e.html() == calendars_html(input.year as int, schedule_of(input)),
{
    let schedule = match calc_calendar(input) {
        Ok(s) => s,
        Err(e) => {
            return Err(e);
        },
    };
    let groups = split_by_month(&schedule);
    let ghost runs = month_runs(schedule@);
    let ghost blocks = Seq::new(runs.len(), |k: int| calendar_html(input.year as int, runs[k]));
    let mut calendars = Element::create("div");
    calendars.add_class("calendars");
    assert(calendars.classes() =~= split_spaces("calendars"@));
    assert(blocks.take(0) =~= Seq::<Seq<char>>::empty());
    let mut k: usize = 0;
    while k < groups.len()
        invariant
            k <= groups.len(),
            runs == groups@.map_values(|g: Vec<Entry>| g@),
            blocks == Seq::new(runs.len(), |k: int| calendar_html(input.year as int, runs[k])),
            forall|k: int, t: int|
                0 <= k < groups@.len() && 0 <= t < groups@[k]@.len() ==> schedule@.contains(#[trigger] groups@[k]@[t]),
            forall|k: int| 0 <= k < groups@.len() ==> (#[trigger] groups@[k])@.len() > 0,
            all_valid(schedule@),
            calendars.tag@ == "div"@,
            calendars.id@.len() == 0,
            calendars.classes() == split_spaces("calendars"@),
            calendars.attrs() == Seq::<(Seq<char>, Seq<char>)>::empty(),
            calendars.text@.len() == 0,
            calendars.children_html(calendars.children.len() as int) == concat_all(blocks.take(k as int)),
        decreases groups.len() - k,
    {
        let group = &groups[k];
        assert(runs[k as int] == group@);
        assert forall|t: int| 0 <= t < group@.len() implies is_valid_date((#[trigger] group@[t]).0.year as int,
            group@[t].0.month as int, group@[t].0.day as int) by {
            assert(groups@[k as int]@[t] == group@[t]);
            let u = choose|u: int| 0 <= u < schedule@.len() && schedule@[u] == group@[t];
        }
        let calendar = create_month(input.year, group);
        proof {
            assert(blocks.take(k as int + 1).drop_last() =~= blocks.take(k as int));
        }
        calendars.append(calendar);
        k = k + 1;
    }
    assert(blocks.take(k as int) =~= blocks);
    Ok(calendars)
}

/// The main part of the page: the legend, then the months.
pub open spec fn main_html(input: &Input) -> Seq<char> {
    plain("main"@, Seq::empty(), Seq::empty(),
        header_html(event_names(input)) + calendars_html(input.year as int, schedule_of(input)))
}

/// The body of the page: the navigation bar, then the main part.
pub open spec fn body_html(input: &Input) -> Seq<char> {
    plain("body"@, Seq::empty(), Seq::empty(), nav_html(input.title@) + main_html(input))
}

/// The whole page.
pub open spec fn page_html(input: &Input) -> Seq<char> {
    plain("html"@, Seq::empty(), Seq::empty(), head_html(input.title@) + body_html(input))
}

/// The outcome of making a page (or any part of it that holds the months):
/// `Ok` exactly when some event names a month and every month and day named exists.
pub open spec fn page_result<T>(input: &Input, r: Result<T, ScheduleError>) -> bool {
    match r {
        Ok(_) => has_entries(input) && dates_valid(input),
        Err(ScheduleError::NoDates) => !has_entries(input),
        Err(ScheduleError::InvalidDate) => has_entries(input) && !dates_valid(input),
    }
}

/// html::body::main
pub fn create_main(input: &Input) -> (r: Result<Element, ScheduleError>)
    ensures
        page_result(input, r),
        r matches Ok(e) ==> e.html() == main_html(input),
{
    let mut main = Element::create("main");
    let header = create_header(input);
    main.append(header);
    let calendar = match create_calendar(input) {
        Ok(c) => c,
        Err(e) => {
            return Err(e);
        },
    };
    main.append(calendar);
    assert(main.classes() =~= Seq::<Seq<char>>::empty());
    Ok(main)
}

/// html::body
pub fn create_body(input: &Input) -> (r: Result<Element, ScheduleError>)
    ensures
        page_result(input, r),
        r matches Ok(e) ==> e.html() == body_html(input),
{
    let mut body = Element::create("body");
    let nav = create_nav(input);
    body.append(nav);
    let main = match create_main(input) {
        Ok(m) => m,
        Err(e) => {
            return Err(e);
        },
    };
    body.append(main);
    assert(body.classes() =~= Seq::<Seq<char>>::empty());
    Ok(body)
}

/// The calendar page of the input, as one line of HTML.
pub fn create(input: &Input) -> (r: Result<String, ScheduleError>)
    ensures
        page_result(input, r),
        r matches Ok(s) ==> s@ == page_html(input),
{
    let mut document = Element::create("html");
    let head = create_head(input);
    document.append(head);
    let body = match create_body(input) {
        Ok(b) => b,
        Err(e) => {
            return Err(e);
        },
    };
    document.append(body);
    assert(document.classes() =~= Seq::<Seq<char>>::empty());
    Ok(document.to_string())
}

/// A header cell of weekday column `j`.
pub open spec fn th_html(j: int, label: Seq<char>) -> Seq<char> {
    plain("th"@, column_classes(j), label, Seq::empty())
}

/// Every month's table starts with the same header row: seven cells, Sun. to Sat.
pub proof fn lemma_weekday_header(ws: Seq<int>)
    ensures
        table_html(ws) == plain("table"@, split_spaces("calendar-body"@), Seq::empty(), thead_html() + tbody_html(ws)),
        thead_html() == plain("thead"@, Seq::empty(), Seq::empty(),
            plain("tr"@, Seq::empty(), Seq::empty(),
                th_html(0, "Sun."@) + th_html(1, "Mon."@) + th_html(2, "Tue."@) + th_html(3, "Wed."@)
                + th_html(4, "Thu."@) + th_html(5, "Fri."@) + th_html(6, "Sat."@))),
{
    let f = |j: int| plain("th"@, column_classes(j), weekday_label(j), Seq::empty());
    let s = Seq::new(7, f);
    assert(s =~= seq![f(0), f(1), f(2), f(3), f(4), f(5), f(6)]);
    reveal_with_fuel(concat_all, 8);
    assert(s.drop_last() =~= seq![f(0), f(1), f(2), f(3), f(4), f(5)]);
    assert(s.drop_last().drop_last() =~= seq![f(0), f(1), f(2), f(3), f(4)]);
    assert(s.drop_last().drop_last().drop_last() =~= seq![f(0), f(1), f(2), f(3)]);
    assert(seq![f(0), f(1), f(2), f(3)].drop_last() =~= seq![f(0), f(1), f(2)]);
    assert(seq![f(0), f(1), f(2)].drop_last() =~= seq![f(0), f(1)]);
    assert(seq![f(0), f(1)].drop_last() =~= seq![f(0)]);
    assert(seq![f(0)].drop_last() =~= Seq::<Seq<char>>::empty());
    assert(concat_all(s) =~= f(0) + f(1) + f(2) + f(3) + f(4) + f(5) + f(6));
}

/// No day is placed before the cell of the first day's weekday.
proof fn lemma_placed_before_first(ws: Seq<int>, c: int)
    requires
        ws.len() > 0,
        0 <= ws[0] < 7,
        0 <= c <= ws[0],
    ensures
        placed(ws, c) == 0,
    decreases c,
{
    if c > 0 {
        lemma_placed_before_first(ws, c - 1);
        assert((c - 1) % 7 == c - 1);
    }
}

/// Day 1 goes in the first row, under its own weekday's column; the cells
/// before it stay empty.
pub proof fn lemma_first_day_column(ws: Seq<int>)
    requires
        ws.len() > 0,
        0 <= ws[0] < 7,
    ensures
        cell_text(ws, ws[0]) == seq!['1'],
        forall|c: int| 0 <= c < ws[0] ==> (#[trigger] cell_text(ws, c)).len() == 0,
{
    lemma_placed_before_first(ws, ws[0]);
    assert(ws[0] % 7 == ws[0]);
    assert(decimal(1) == seq![digit_char(1)]);
    assert forall|c: int| 0 <= c < ws[0] implies (#[trigger] cell_text(ws, c)).len() == 0 by {
        lemma_placed_before_first(ws, c);
        assert(c % 7 == c);
    }
}

/// The last run ends with the last day.
proof fn lemma_runs_last(s: Seq<Entry>)
    requires
        s.len() > 0,
    ensures
        month_runs(s).len() > 0,
        month_runs(s).last().len() > 0,
        month_runs(s).last().last() == s.last(),
    decreases s.len(),
{
    if s.len() > 1 {
        lemma_runs_last(s.drop_last());
    }
}

/// Days of a new month, appended after a run of another month, form one run of their own.
proof fn lemma_runs_append_month(s: Seq<Entry>, t: Seq<Entry>, n: int)
    requires
        s.len() > 0,
        1 <= n <= t.len(),
        forall|i: int| 0 <= i < t.len() ==> (#[trigger] t[i]).0.month == t[0].0.month,
        s.last().0.month != t[0].0.month,
    ensures
        month_runs(s + t.take(n)) == month_runs(s).push(t.take(n)),
    decreases n,
{
    let u = s + t.take(n);
    lemma_runs_last(s);
    if n == 1 {
        assert(u.drop_last() =~= s);
        assert(t.take(1) =~= seq![t[0]]);
    } else {
        lemma_runs_append_month(s, t, n - 1);
        assert(u.drop_last() =~= s + t.take(n - 1));
        let r = month_runs(s).push(t.take(n - 1));
        assert(r.last().last() == t[n - 2]);
        assert(t.take(n - 1).push(t[n - 1]) =~= t.take(n));
        assert(r.update(r.len() - 1, t.take(n)) =~= month_runs(s).push(t.take(n)));
    }
}

/// The schedule's runs are its months, in order, each from its first day to its last.
proof fn lemma_runs_of_span(events: Seq<Event>, year: i32, lo: int, hi: int)
    requires
        1 <= lo <= hi <= 12,
    ensures
        month_runs(tagged(events, span(year, lo, hi)))
            == Seq::new((hi - lo + 1) as nat, |k: int| tagged(events, month_span(year, lo + k))),
    decreases hi - lo,
{
    let want = Seq::new((hi - lo + 1) as nat, |k: int| tagged(events, month_span(year, lo + k)));
    let t = tagged(events, month_span(year, hi));
    assert(tagged(events, span(year, lo, hi)) =~= tagged(events, span(year, lo, hi - 1)) + t);
    assert(t.take(t.len() as int) =~= t);
    if hi == lo {
        assert(span(year, lo, hi - 1) =~= Seq::<CalDate>::empty());
        assert(tagged(events, span(year, lo, hi)) =~= t);
        assert forall|n: int| 1 <= n <= t.len() implies month_runs(t.take(n)) == seq![t.take(n)] by {
            lemma_runs_single_month(t, n);
        }
        assert(want =~= seq![t]);
    } else {
        lemma_runs_of_span(events, year, lo, hi - 1);
        lemma_span_days(year, lo, hi - 1);
        let s = tagged(events, span(year, lo, hi - 1));
        lemma_runs_append_month(s, t, t.len() as int);
        assert(want =~= Seq::new((hi - lo) as nat, |k: int| tagged(events, month_span(year, lo + k))).push(t));
    }
}

/// The days of one month form a single run.
proof fn lemma_runs_single_month(t: Seq<Entry>, n: int)
    requires
        1 <= n <= t.len(),
        forall|i: int| 0 <= i < t.len() ==> (#[trigger] t[i]).0.month == t[0].0.month,
    ensures
        month_runs(t.take(n)) == seq![t.take(n)],
    decreases n,
{
    let u = t.take(n);
    if n == 1 {
        assert(u.drop_last() =~= Seq::<Entry>::empty());
        assert(month_runs(u.drop_last()).len() == 0);
        assert(u =~= seq![t[0]]);
        assert(month_runs(u) == month_runs(u.drop_last()).push(seq![u.last()]));
        assert(month_runs(u) =~= seq![u]);
    } else {
        lemma_runs_single_month(t, n - 1);
        assert(u.drop_last() =~= t.take(n - 1));
        let r = month_runs(u.drop_last());
        assert(r == seq![t.take(n - 1)]);
        assert(r.len() == 1);
        assert(r.last() == t.take(n - 1));
        assert(r.last().last() == t[n - 2]);
        assert(t[n - 2].0.month == t[n - 1].0.month);
        assert(u.last() == t[n - 1]);
        assert(month_runs(u) == r.update(0, r.last().push(u.last())));
        assert(t.take(n - 1).push(t[n - 1]) =~= u);
        assert(month_runs(u) =~= seq![u]);
    }
}

/// The page holds one block per month from the earliest month that an event names
/// to the latest, in order; each block holds that month's days from the first on,
/// so that day 1 stands under the weekday of the first of the month.
pub proof fn lemma_one_block_per_month(input: &Input)
    requires
        has_entries(input),
        dates_valid(input),
    ensures
        month_runs(schedule_of(input)) == Seq::new(
            (last_month(input) - first_month(input) + 1) as nat,
            |k: int| tagged(input.events@, month_span(input.year, first_month(input) + k)),
        ),
        forall|k: int| 0 <= k < month_runs(schedule_of(input)).len() ==>
            (#[trigger] month_runs(schedule_of(input))[k])[0].0
                == (CalDate { year: input.year, month: (first_month(input) + k) as u32, day: 1 }),
{
    lemma_first_last_month(input);
    let lo = first_month(input);
    let hi = last_month(input);
    lemma_runs_of_span(input.events@, input.year, lo, hi);
    assert forall|k: int| 0 <= k < month_runs(schedule_of(input)).len() implies
        (#[trigger] month_runs(schedule_of(input))[k])[0].0
            == (CalDate { year: input.year, month: (lo + k) as u32, day: 1 }) by {
        assert(month_runs(schedule_of(input))[k] == tagged(input.events@, month_span(input.year, lo + k)));
    }
}

} // verus!
