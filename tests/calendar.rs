use html_calendar::date::{decimal_string, signed_decimal_string, CalDate, MonthNames};
use html_calendar::element::Element;
use html_calendar::input::{Date, Event, Input};
use html_calendar::render::{
    create, create_calendar_table, create_calendar_title, create_head, create_header, create_nav,
};
use html_calendar::schedule::{calc_calendar, ScheduleError};

fn event(name: &str, dates: Vec<(u32, Vec<u32>)>) -> Event {
    Event {
        name: name.to_string(),
        dates: dates.into_iter().map(|(month, days)| Date { month, days }).collect(),
    }
}

fn input(year: i32, title: &str, events: Vec<Event>) -> Input {
    Input { year, title: title.to_string(), events }
}

#[test]
fn bare_element_serializes_to_empty_pair() {
    assert_eq!(Element::create("div").to_string(), "<div></div>");
}

#[test]
fn element_parts_in_order() {
    let mut e = Element::create("p");
    e.set_id("x".to_string());
    e.add_class("a b");
    e.set_attribute("k", "1");
    e.set_attribute("k", "2");
    e.set_text(&"hi".to_string());
    assert_eq!(e.to_string(), "<p id=\"x\" class=\"a b\" k=\"1\" k=\"2\">hi</p>");
}

#[test]
fn children_follow_text_in_append_order() {
    let mut parent = Element::create("ul");
    parent.set_text(&"t".to_string());
    let mut a = Element::create("li");
    a.set_text(&"1".to_string());
    let mut b = Element::create("li");
    b.set_text(&"2".to_string());
    parent.append(a);
    parent.append(b);
    assert_eq!(parent.to_string(), "<ul>t<li>1</li><li>2</li></ul>");
}

#[test]
fn add_class_splits_on_each_space() {
    let mut e = Element::create("i");
    e.add_class("a  b");
    assert_eq!(e.class_list, vec!["a".to_string(), "".to_string(), "b".to_string()]);
    e.add_class("c");
    assert_eq!(e.to_string(), "<i class=\"a  b c\"></i>");
}

#[test]
fn empty_id_is_left_out() {
    let mut e = Element::create("span");
    e.set_id(String::new());
    assert_eq!(e.to_string(), "<span></span>");
}

#[test]
fn month_names_by_index() {
    assert_eq!(MonthNames::from_u32(0), Some(MonthNames::January));
    assert_eq!(MonthNames::from_u32(11), Some(MonthNames::December));
    assert_eq!(MonthNames::from_u32(12), None);
    assert_eq!(MonthNames::from_u32(4).unwrap().name(), "May");
}

#[test]
fn numbers_in_decimal() {
    assert_eq!(decimal_string(0), "0");
    assert_eq!(decimal_string(1024), "1024");
    assert_eq!(signed_decimal_string(2024), "2024");
    assert_eq!(signed_decimal_string(-45), "-45");
}

#[test]
fn single_event_in_january() {
    let inp = input(2024, "T", vec![event("E1", vec![(1, vec![1])])]);
    let s = calc_calendar(&inp).unwrap();
    assert_eq!(s.len(), 31);
    assert_eq!(s[0], (CalDate { year: 2024, month: 1, day: 1 }, Some(0)));
    for (i, (d, tag)) in s.iter().enumerate() {
        assert_eq!(*d, CalDate { year: 2024, month: 1, day: i as u32 + 1 });
        if i > 0 {
            assert_eq!(*tag, None);
        }
    }
    let page = create(&inp).unwrap();
    assert!(page.starts_with("<html><head><title>T</title>"));
    assert_eq!(page.matches("<div class=\"calendar\">").count(), 1);
    assert!(page.contains("<span class=\"month\">January</span><br></br><span class=\"year\">2024</span>"));
}

#[test]
fn later_event_wins_a_shared_day() {
    let inp = input(
        2024,
        "T",
        vec![event("A", vec![(3, vec![5])]), event("B", vec![(3, vec![5])])],
    );
    let s = calc_calendar(&inp).unwrap();
    assert_eq!(s.len(), 31);
    assert_eq!(s[4], (CalDate { year: 2024, month: 3, day: 5 }, Some(1)));
}

#[test]
fn schedule_spans_from_first_to_last_month() {
    let inp = input(
        2023,
        "T",
        vec![event("A", vec![(4, vec![30])]), event("B", vec![(2, vec![1, 28])])],
    );
    let s = calc_calendar(&inp).unwrap();
    assert_eq!(s.len(), 28 + 31 + 30);
    assert_eq!(s[0], (CalDate { year: 2023, month: 2, day: 1 }, Some(1)));
    assert_eq!(s[27], (CalDate { year: 2023, month: 2, day: 28 }, Some(1)));
    assert_eq!(s[28].0, CalDate { year: 2023, month: 3, day: 1 });
    assert_eq!(s[88], (CalDate { year: 2023, month: 4, day: 30 }, Some(0)));
}

#[test]
fn december_ends_on_the_31st() {
    let inp = input(2024, "T", vec![event("A", vec![(12, vec![25])])]);
    let s = calc_calendar(&inp).unwrap();
    assert_eq!(s.len(), 31);
    assert_eq!(s[30].0, CalDate { year: 2024, month: 12, day: 31 });
    assert_eq!(s[24].1, Some(0));
}

#[test]
fn leap_day_only_in_leap_years() {
    let ok = input(2024, "T", vec![event("A", vec![(2, vec![29])])]);
    assert_eq!(calc_calendar(&ok).unwrap().len(), 29);
    let bad = input(2023, "T", vec![event("A", vec![(2, vec![29])])]);
    assert_eq!(calc_calendar(&bad), Err(ScheduleError::InvalidDate));
}

#[test]
fn no_months_is_an_error() {
    let none = input(2024, "T", vec![]);
    assert_eq!(calc_calendar(&none), Err(ScheduleError::NoDates));
    let empty_event = input(2024, "T", vec![event("A", vec![])]);
    assert_eq!(calc_calendar(&empty_event), Err(ScheduleError::NoDates));
    assert_eq!(create(&none), Err(ScheduleError::NoDates));
}

#[test]
fn invalid_month_or_day_is_an_error() {
    let month = input(2024, "T", vec![event("A", vec![(13, vec![])])]);
    assert_eq!(calc_calendar(&month), Err(ScheduleError::InvalidDate));
    let day = input(2024, "T", vec![event("A", vec![(4, vec![31])])]);
    assert_eq!(calc_calendar(&day), Err(ScheduleError::InvalidDate));
    assert_eq!(create(&day), Err(ScheduleError::InvalidDate));
}

#[test]
fn month_without_days_still_widens_the_range() {
    let inp = input(2024, "T", vec![event("A", vec![(1, vec![2]), (2, vec![])])]);
    let s = calc_calendar(&inp).unwrap();
    assert_eq!(s.len(), 31 + 29);
    assert_eq!(s[1].1, Some(0));
}

fn month_run(year: i32, month: u32, days: u32) -> Vec<(CalDate, Option<usize>)> {
    (1..=days).map(|day| (CalDate { year, month, day }, None)).collect()
}

fn cell_texts(html: &str) -> Vec<String> {
    html.split("<td")
        .skip(1)
        .map(|cell| {
            let start = cell.find('>').unwrap() + 1;
            let end = cell.find("</td>").unwrap();
            cell[start..end].to_string()
        })
        .collect()
}

#[test]
fn weekday_header_is_fixed() {
    let html = create_calendar_table(&month_run(2024, 5, 31)).to_string();
    let head = "<thead><tr><th class=\"center-align red-text\">Sun.</th>\
<th class=\"center-align\">Mon.</th><th class=\"center-align\">Tue.</th>\
<th class=\"center-align\">Wed.</th><th class=\"center-align\">Thu.</th>\
<th class=\"center-align\">Fri.</th><th class=\"center-align blue-text\">Sat.</th></tr></thead>";
    assert!(html.starts_with(&format!("<table class=\"calendar-body\">{}", head)));
    let other = create_calendar_table(&month_run(2023, 2, 28)).to_string();
    assert!(other.contains(head));
}

#[test]
fn first_day_under_its_weekday() {
    // 1 May 2024 is a Wednesday.
    let cells = cell_texts(&create_calendar_table(&month_run(2024, 5, 31)).to_string());
    assert_eq!(cells.len(), 35);
    assert_eq!(cells[0], "");
    assert_eq!(cells[2], "");
    assert_eq!(cells[3], "1");
    assert_eq!(cells[4], "2");
    assert_eq!(cells[7], "5");
    assert_eq!(cells[33], "31");
    assert_eq!(cells[34], "");
}

#[test]
fn days_past_five_rows_are_not_shown() {
    // 1 March 2024 is a Friday: the 31st would need a sixth row.
    let cells = cell_texts(&create_calendar_table(&month_run(2024, 3, 31)).to_string());
    assert_eq!(cells[5], "1");
    assert_eq!(cells[34], "30");
}

#[test]
fn title_and_navigation() {
    let t = create_calendar_title("June".to_string(), 2024).to_string();
    assert_eq!(
        t,
        "<div class=\"calendar-title row\"><div class=\"col s2\"><i class=\"material-icons\">navigate_before</i></div>\
<div class=\"col s8 center-align date\"><span class=\"month\">June</span><br></br><span class=\"year\">2024</span></div>\
<div class=\"col s2\"><i class=\"material-icons\">navigate_next</i></div></div>"
    );
    let inp = input(2024, "Club", vec![event("A", vec![(1, vec![1])]), event("B", vec![(1, vec![2])])]);
    assert_eq!(
        create_nav(&inp).to_string(),
        "<nav><div class=\"nav-wrapper\"><a class=\"brand-logo center\">Club</a></div></nav>"
    );
    assert_eq!(
        create_header(&inp).to_string(),
        "<header><div class=\"event-description\"><ul class=\"collection\">\
<li><span event_index=\"0\">  </span><span class=\"description\">A</span></li>\
<li><span event_index=\"1\">  </span><span class=\"description\">B</span></li></ul></div></header>"
    );
    let head = create_head(&inp).to_string();
    assert!(head.starts_with("<head><title>Club</title><link rel=\"stylesheet\" href=\"https://cdnjs."));
    assert!(head.ends_with("<link rel=\"stylesheet\" href=\"custom.css\"></link></head>"));
}
