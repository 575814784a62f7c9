use rdiary::calendar::CalendarDate;
use rdiary::entry::{candidate_paths, get_entry_path, read_entry, resolve, Presence};

fn date(year: i32, month: u32, day: u32) -> CalendarDate {
    CalendarDate::new(year, month, day).unwrap()
}

#[test]
fn candidates_are_org_then_md() {
    let (org, md) = candidate_paths("/home/me/diary", &date(2023, 1, 5));
    assert_eq!(org, "/home/me/diary/2023-01-05.org");
    assert_eq!(md, "/home/me/diary/2023-01-05.md");
}

#[test]
fn candidates_under_a_relative_or_empty_base() {
    let (org, md) = candidate_paths("diary", &date(1999, 12, 31));
    assert_eq!(org, "diary/1999-12-31.org");
    assert_eq!(md, "diary/1999-12-31.md");
    let (org, md) = candidate_paths("", &date(1999, 12, 31));
    assert_eq!(org, "/1999-12-31.org");
    assert_eq!(md, "/1999-12-31.md");
    let (org, _) = candidate_paths("journal/", &date(2024, 2, 29));
    assert_eq!(org, "journal//2024-02-29.org");
}

#[test]
fn org_file_is_preferred_when_present() {
    let day = date(2023, 1, 5);
    assert_eq!(
        get_entry_path("/d", &day, true, false),
        (String::from("/d/2023-01-05.org"), true)
    );
}

#[test]
fn org_file_wins_over_md_file() {
    let day = date(2023, 1, 5);
    assert_eq!(get_entry_path("/d", &day, true, true), (String::from("/d/2023-01-05.org"), true));
}

#[test]
fn md_file_is_used_when_only_it_is_present() {
    let day = date(2023, 1, 5);
    assert_eq!(get_entry_path("/d", &day, false, true), (String::from("/d/2023-01-05.md"), true));
}

#[test]
fn missing_entry_falls_back_to_md() {
    let day = date(2023, 1, 5);
    assert_eq!(
        get_entry_path("/d", &day, false, false),
        (String::from("/d/2023-01-05.md"), false)
    );
}

#[test]
fn resolve_fills_every_field() {
    let day = date(2022, 11, 30);
    let entry = resolve("base", day, Presence { org: false, md: true });
    assert_eq!(entry.path, "base/2022-11-30.md");
    assert_eq!(entry.date, day);
    assert!(entry.exists);

    let entry = resolve("base", day, Presence { org: false, md: false });
    assert_eq!(entry.path, "base/2022-11-30.md");
    assert_eq!(entry.date, day);
    assert!(!entry.exists);

    let entry = resolve("base", day, Presence { org: true, md: false });
    assert_eq!(entry.path, "base/2022-11-30.org");
    assert!(entry.exists);
}

#[test]
fn resolve_is_the_same_for_every_day_of_a_month() {
    for day in 1..=31 {
        let d = date(2023, 7, day);
        let found = Presence { org: day % 3 == 0, md: day % 2 == 0 };
        let entry = resolve("/j", d, found);
        let stem = format!("/j/2023-07-{:02}", day);
        if found.org {
            assert_eq!(entry.path, format!("{}.org", stem));
            assert!(entry.exists);
        } else {
            assert_eq!(entry.path, format!("{}.md", stem));
            assert_eq!(entry.exists, found.md);
        }
    }
}

#[test]
fn preview_of_an_existing_entry_is_its_content() {
    assert_eq!(read_entry(Some(String::from("Dear diary,\n"))), "Dear diary,\n");
    assert_eq!(read_entry(Some(String::new())), "");
}

#[test]
fn preview_of_a_missing_entry_is_the_placeholder() {
    assert_eq!(read_entry(None), "No entry for this date.");
}
