use tmsu::entities::{FileId, FileTag, Implication, Tag, TagId, Value, ValueId};
use tmsu::errors::ErrorKind;
use tmsu::implied::{add_implied_file_tags, find_file_tag_for_pair};
use tmsu::tags::{sort_by_tag_name, tag_data_by_file_id, TagData};

fn applied(tag: u32, value: Option<u32>) -> FileTag {
    FileTag {
        file_id: FileId(7),
        tag_id: TagId(tag),
        value_id: value.map(ValueId),
        explicit: true,
        implicit: false,
    }
}

fn rule(from: (u32, Option<u32>), to: (u32, Option<u32>)) -> Implication {
    Implication {
        implying_tag_id: TagId(from.0),
        implying_value_id: from.1.map(ValueId),
        implied_tag_id: TagId(to.0),
        implied_value_id: to.1.map(ValueId),
    }
}

/// (tag, value, explicit, implicit) of each file tag, in order of tag and value.
fn summary(all: &[FileTag]) -> Vec<(u32, Option<u32>, bool, bool)> {
    let mut s: Vec<_> = all
        .iter()
        .map(|ft| (ft.tag_id.0, ft.value_id.map(|v| v.0), ft.explicit, ft.implicit))
        .collect();
    s.sort();
    s
}

#[test]
fn chain_is_followed() {
    let rules = vec![rule((1, None), (2, None)), rule((2, None), (3, None))];
    let all = add_implied_file_tags(&vec![applied(1, None)], &rules);
    assert_eq!(all[0], applied(1, None));
    assert_eq!(
        summary(&all),
        vec![
            (1, None, true, false),
            (2, None, false, true),
            (3, None, false, true)
        ]
    );
    assert!(all.iter().all(|ft| ft.file_id == FileId(7)));
}

#[test]
fn cycle_ends_from_either_node() {
    let rules = vec![rule((1, None), (2, None)), rule((2, None), (1, None))];
    let from_a = add_implied_file_tags(&vec![applied(1, None)], &rules);
    assert_eq!(
        summary(&from_a),
        vec![(1, None, true, true), (2, None, false, true)]
    );
    let from_b = add_implied_file_tags(&vec![applied(2, None)], &rules);
    assert_eq!(
        summary(&from_b),
        vec![(1, None, false, true), (2, None, true, true)]
    );
}

#[test]
fn self_loop_marks_the_tag_implicit() {
    let rules = vec![rule((1, None), (1, None))];
    let all = add_implied_file_tags(&vec![applied(1, None)], &rules);
    assert_eq!(summary(&all), vec![(1, None, true, true)]);
}

#[test]
fn no_rules_no_change() {
    let explicit = vec![applied(1, None), applied(2, Some(5))];
    assert_eq!(add_implied_file_tags(&explicit, &vec![]), explicit);
    assert_eq!(add_implied_file_tags(&vec![], &vec![rule((1, None), (2, None))]), vec![]);
}

#[test]
fn rule_with_value_applies_to_that_value_only() {
    let rules = vec![rule((1, Some(10)), (2, None)), rule((1, None), (3, Some(30)))];
    let with_other = add_implied_file_tags(&vec![applied(1, Some(11))], &rules);
    assert_eq!(
        summary(&with_other),
        vec![(1, Some(11), true, false), (3, Some(30), false, true)]
    );
    let with_value = add_implied_file_tags(&vec![applied(1, Some(10))], &rules);
    assert_eq!(
        summary(&with_value),
        vec![
            (1, Some(10), true, false),
            (2, None, false, true),
            (3, Some(30), false, true)
        ]
    );
    let without = add_implied_file_tags(&vec![applied(1, None)], &rules);
    assert_eq!(
        summary(&without),
        vec![(1, None, true, false), (3, Some(30), false, true)]
    );
}

#[test]
fn no_value_differs_from_a_value() {
    let rules = vec![rule((1, None), (2, None))];
    let all = add_implied_file_tags(&vec![applied(1, None), applied(2, Some(4))], &rules);
    assert_eq!(
        summary(&all),
        vec![
            (1, None, true, false),
            (2, None, false, true),
            (2, Some(4), true, false)
        ]
    );
}

#[test]
fn implied_explicit_tag_is_both() {
    let rules = vec![rule((1, None), (2, None))];
    let all = add_implied_file_tags(&vec![applied(1, None), applied(2, None)], &rules);
    assert_eq!(
        all,
        vec![
            applied(1, None),
            FileTag {
                implicit: true,
                ..applied(2, None)
            }
        ]
    );
}

#[test]
fn diamond_is_added_once() {
    let rules = vec![
        rule((1, None), (2, None)),
        rule((1, None), (3, None)),
        rule((2, None), (4, None)),
        rule((3, None), (4, None)),
        rule((4, None), (1, None)),
    ];
    let all = add_implied_file_tags(&vec![applied(1, None)], &rules);
    assert_eq!(
        summary(&all),
        vec![
            (1, None, true, true),
            (2, None, false, true),
            (3, None, false, true),
            (4, None, false, true)
        ]
    );
}

#[test]
fn finds_first_file_tag_of_pair() {
    let tags = vec![applied(1, None), applied(2, Some(3)), applied(2, None), applied(2, Some(3))];
    assert_eq!(find_file_tag_for_pair(&tags, TagId(2), Some(ValueId(3))), Some(1));
    assert_eq!(find_file_tag_for_pair(&tags, TagId(2), None), Some(2));
    assert_eq!(find_file_tag_for_pair(&tags, TagId(1), Some(ValueId(3))), None);
    assert_eq!(find_file_tag_for_pair(&tags, TagId(9), None), None);
}

fn tag(id: u32, name: &str) -> Tag {
    Tag {
        id: TagId(id),
        name: name.to_string(),
    }
}

fn shown(data: &[TagData]) -> Vec<String> {
    data.iter()
        .map(|d| {
            let flags = match (d.explicit, d.implicit) {
                (true, true) => "both",
                (true, false) => "explicit",
                (false, true) => "implicit",
                (false, false) => "neither",
            };
            match &d.value_name {
                Some(v) => format!("{}={}({})", d.tag_name, v, flags),
                None => format!("{}({})", d.tag_name, flags),
            }
        })
        .collect()
}

#[test]
fn scenario_listing_is_sorted_by_name() {
    // music = 1, mp3 = 2, audio = 3; mp3 implies audio
    let tags = vec![tag(1, "music"), tag(2, "mp3"), tag(3, "audio")];
    let explicit = vec![applied(1, None), applied(2, None)];
    let rules = vec![rule((2, None), (3, None))];
    let data = tag_data_by_file_id(&explicit, &rules, &tags, &vec![]).unwrap();
    assert_eq!(
        shown(&data),
        vec!["audio(implicit)", "mp3(explicit)", "music(explicit)"]
    );
}

#[test]
fn listing_names_values() {
    let tags = vec![tag(1, "year"), tag(2, "decade")];
    let values = vec![
        Value {
            id: ValueId(5),
            name: "1999".to_string(),
        },
        Value {
            id: ValueId(6),
            name: "90s".to_string(),
        },
    ];
    let rules = vec![rule((1, Some(5)), (2, Some(6)))];
    let data = tag_data_by_file_id(&vec![applied(1, Some(5))], &rules, &tags, &values).unwrap();
    assert_eq!(shown(&data), vec!["decade=90s(implicit)", "year=1999(explicit)"]);
}

#[test]
fn listing_fails_on_unknown_names() {
    let tags = vec![tag(1, "a")];
    let rules = vec![rule((1, None), (2, None))];
    assert_eq!(
        tag_data_by_file_id(&vec![applied(1, None)], &rules, &tags, &vec![]).unwrap_err(),
        ErrorKind::NotFound
    );
    assert_eq!(
        tag_data_by_file_id(&vec![applied(1, Some(9))], &vec![], &tags, &vec![]).unwrap_err(),
        ErrorKind::NotFound
    );
}

#[test]
fn sorting_keeps_every_tag() {
    let data = ["b", "a", "c", "a", "B", "ab", ""]
        .iter()
        .enumerate()
        .map(|(i, name)| TagData {
            tag_name: name.to_string(),
            value_name: Some(i.to_string()),
            explicit: true,
            implicit: false,
        })
        .collect();
    let sorted = sort_by_tag_name(data);
    let names: Vec<&str> = sorted.iter().map(|d| d.tag_name.as_str()).collect();
    assert_eq!(names, vec!["", "B", "a", "a", "ab", "b", "c"]);
    let mut values: Vec<String> = sorted.iter().map(|d| d.value_name.clone().unwrap()).collect();
    values.sort();
    assert_eq!(values, vec!["0", "1", "2", "3", "4", "5", "6"]);
}
