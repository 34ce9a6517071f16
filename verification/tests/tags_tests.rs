use std::rc::Rc;
use tmsu::entities::{
    load_existing_tag, load_existing_value, same_value, tag_name_by_id, value_name_by_id, File,
    FileId, FileTag, Implication, Tag, TagId, Value, ValueId,
};
use tmsu::errors::ErrorKind;
use tmsu::order::name_le;
use tmsu::path::{CanonicalPath, Lookup, Resolution, ScopedPath};
use tmsu::tags::{
    file_by_path, file_tags_by_file_id, file_tags_by_value_id, insert_name, list_all_tags,
    list_tags_for_paths, list_tags_for_values, name_file_tags, tag_names_by_value_id,
    FileTagGroup, ResolvedPath, TagData, ValueTagGroup,
};

fn tag(id: u32, name: &str) -> Tag {
    Tag {
        id: TagId(id),
        name: name.to_string(),
    }
}

fn value(id: u32, name: &str) -> Value {
    Value {
        id: ValueId(id),
        name: name.to_string(),
    }
}

fn file(id: u32, dir: &str, name: &str) -> File {
    File {
        id: FileId(id),
        dir: dir.to_string(),
        name: name.to_string(),
        fingerprint: String::new(),
        mod_time: "2020-01-01 00:00:00+00:00".to_string(),
        size: 0,
        is_dir: false,
    }
}

fn file_tag(file: u32, tag: u32, value: Option<u32>) -> FileTag {
    FileTag {
        file_id: FileId(file),
        tag_id: TagId(tag),
        value_id: value.map(ValueId),
        explicit: true,
        implicit: false,
    }
}

fn names(v: &[&str]) -> Vec<String> {
    v.iter().map(|s| s.to_string()).collect()
}

/// Scopes a path below `/tmp/root` that needs no look at a file system.
fn scoped(path: &str) -> ScopedPath {
    let base = Rc::new(
        CanonicalPath::new(Lookup::Found {
            path: "/tmp/root".to_string(),
            is_dir: true,
        })
        .unwrap(),
    );
    let mut r = ScopedPath::new(base, path);
    loop {
        match r {
            Resolution::Ask(walk) => {
                let answer = match walk.probe() {
                    tmsu::path::Probe::IsSymlink(_) => tmsu::path::Answer::Symlink(false),
                    tmsu::path::Probe::Canonicalize(_) => {
                        tmsu::path::Answer::Canonical(Lookup::Missing)
                    }
                };
                r = walk.answer(answer);
            }
            Resolution::Done(p) => return p,
            Resolution::Failed(e) => panic!("failed: {:?}", e),
        }
    }
}

#[test]
fn all_tags_are_one_group() {
    let groups = list_all_tags(&vec![tag(2, "b"), tag(1, "a")]);
    assert_eq!(
        groups,
        vec![ValueTagGroup {
            value_name: None,
            tag_names: names(&["b", "a"]),
        }]
    );
    assert_eq!(
        list_all_tags(&vec![]),
        vec![ValueTagGroup {
            value_name: None,
            tag_names: vec![],
        }]
    );
}

#[test]
fn tags_for_values_are_sorted_and_listed_once() {
    let tags = vec![tag(1, "year"), tag(2, "album"), tag(3, "artist")];
    let values = vec![value(10, "1999"), value(11, "blue")];
    let file_tags = vec![
        file_tag(1, 1, Some(10)),
        file_tag(2, 1, Some(10)),
        file_tag(2, 2, Some(10)),
        file_tag(3, 3, Some(11)),
        file_tag(3, 2, None),
    ];
    let groups = list_tags_for_values(&names(&["1999", "blue"]), &tags, &values, &file_tags);
    assert_eq!(
        groups,
        Ok(vec![
            ValueTagGroup {
                value_name: Some("1999".to_string()),
                tag_names: names(&["album", "year"]),
            },
            ValueTagGroup {
                value_name: Some("blue".to_string()),
                tag_names: names(&["artist"]),
            },
        ])
    );
}

#[test]
fn tags_for_no_value_are_all_tags() {
    let tags = vec![tag(1, "year"), tag(2, "album")];
    assert_eq!(
        list_tags_for_values(&vec![], &tags, &vec![], &vec![]),
        Ok(vec![ValueTagGroup {
            value_name: None,
            tag_names: names(&["year", "album"]),
        }])
    );
}

#[test]
fn tags_for_unknown_value_are_not_found() {
    let tags = vec![tag(1, "year")];
    let values = vec![value(10, "1999")];
    assert_eq!(
        list_tags_for_values(&names(&["2000"]), &tags, &values, &vec![]),
        Err(ErrorKind::NotFound)
    );
    // a file tag whose tag is gone
    assert_eq!(
        list_tags_for_values(
            &names(&["1999"]),
            &tags,
            &values,
            &vec![file_tag(1, 5, Some(10))]
        ),
        Err(ErrorKind::NotFound)
    );
}

#[test]
fn tag_names_of_file_tags() {
    let tags = vec![tag(1, "b"), tag(2, "a"), tag(3, "c")];
    let rows = vec![
        file_tag(1, 3, None),
        file_tag(1, 1, None),
        file_tag(2, 1, None),
        file_tag(2, 2, None),
    ];
    assert_eq!(tag_names_by_value_id(&rows, &tags), Ok(names(&["a", "b", "c"])));
    assert_eq!(tag_names_by_value_id(&vec![], &tags), Ok(vec![]));
    assert_eq!(
        tag_names_by_value_id(&vec![file_tag(1, 9, None)], &tags),
        Err(ErrorKind::NotFound)
    );
}

#[test]
fn names_are_inserted_in_order() {
    let mut sorted: Vec<String> = vec![];
    for name in ["m", "a", "z", "m", "b", "", "a"] {
        insert_name(&mut sorted, name.to_string());
    }
    assert_eq!(sorted, names(&["", "a", "b", "m", "z"]));
}

#[test]
fn names_are_ordered_by_character() {
    assert!(name_le("", ""));
    assert!(name_le("", "a"));
    assert!(!name_le("a", ""));
    assert!(name_le("a", "ab"));
    assert!(!name_le("ab", "a"));
    assert!(name_le("B", "a"));
    assert!(!name_le("b", "a"));
    assert!(name_le("mp3", "music"));
    assert!(name_le("z", "é"));
    assert!(name_le("same", "same"));
}

#[test]
fn lookups_by_id_and_name() {
    let tags = vec![tag(1, "a"), tag(2, "b"), tag(1, "c")];
    assert_eq!(tag_name_by_id(&tags, TagId(1)), Some("a".to_string()));
    assert_eq!(tag_name_by_id(&tags, TagId(2)), Some("b".to_string()));
    assert_eq!(tag_name_by_id(&tags, TagId(3)), None);
    assert_eq!(load_existing_tag(&tags, "b"), Ok(TagId(2)));
    assert_eq!(load_existing_tag(&tags, "x"), Err(ErrorKind::NotFound));
    let values = vec![value(4, "v")];
    assert_eq!(value_name_by_id(&values, ValueId(4)), Some("v".to_string()));
    assert_eq!(value_name_by_id(&values, ValueId(5)), None);
    assert_eq!(load_existing_value(&values, "v"), Ok(ValueId(4)));
    assert_eq!(load_existing_value(&values, ""), Err(ErrorKind::NotFound));
}

#[test]
fn no_value_is_not_a_value() {
    assert!(same_value(None, None));
    assert!(same_value(Some(ValueId(1)), Some(ValueId(1))));
    assert!(!same_value(Some(ValueId(1)), Some(ValueId(2))));
    assert!(!same_value(None, Some(ValueId(0))));
    assert!(!same_value(Some(ValueId(0)), None));
}

#[test]
fn rows_are_filtered_in_order() {
    let rows = vec![
        file_tag(1, 1, Some(5)),
        file_tag(2, 1, None),
        file_tag(1, 2, Some(6)),
        file_tag(3, 2, Some(5)),
    ];
    assert_eq!(
        file_tags_by_value_id(&rows, ValueId(5)),
        vec![file_tag(1, 1, Some(5)), file_tag(3, 2, Some(5))]
    );
    assert_eq!(
        file_tags_by_file_id(&rows, FileId(1)),
        vec![file_tag(1, 1, Some(5)), file_tag(1, 2, Some(6))]
    );
    assert_eq!(file_tags_by_file_id(&rows, FileId(9)), vec![]);
}

#[test]
fn file_tags_are_named() {
    let tags = vec![tag(1, "year")];
    let values = vec![value(5, "1999")];
    let rows = vec![
        file_tag(1, 1, Some(5)),
        FileTag {
            explicit: false,
            implicit: true,
            ..file_tag(1, 1, None)
        },
    ];
    assert_eq!(
        name_file_tags(&rows, &tags, &values),
        Ok(vec![
            TagData {
                tag_name: "year".to_string(),
                value_name: Some("1999".to_string()),
                explicit: true,
                implicit: false,
            },
            TagData {
                tag_name: "year".to_string(),
                value_name: None,
                explicit: false,
                implicit: true,
            },
        ])
    );
    assert_eq!(
        name_file_tags(&vec![file_tag(1, 1, Some(6))], &tags, &values),
        Err(ErrorKind::NotFound)
    );
}

#[test]
fn files_are_found_by_directory_and_name() {
    let files = vec![file(1, "a", "b.txt"), file(2, ".", "a"), file(3, ".", ".")];
    assert_eq!(file_by_path(&files, &scoped("a/b.txt")), Some(FileId(1)));
    assert_eq!(file_by_path(&files, &scoped("a")), Some(FileId(2)));
    assert_eq!(file_by_path(&files, &scoped(".")), Some(FileId(3)));
    assert_eq!(file_by_path(&files, &scoped("b.txt")), None);
}

#[test]
fn tags_for_paths_of_scenario() {
    // music = 1, mp3 = 2, audio = 3; mp3 implies audio
    let tags = vec![tag(1, "music"), tag(2, "mp3"), tag(3, "audio")];
    let files = vec![file(4, "a", "b.txt")];
    let file_tags = vec![file_tag(4, 1, None), file_tag(4, 2, None), file_tag(5, 3, None)];
    let rules = vec![Implication {
        implying_tag_id: TagId(2),
        implying_value_id: None,
        implied_tag_id: TagId(3),
        implied_value_id: None,
    }];
    let paths = vec![
        ResolvedPath {
            path: "a/b.txt".to_string(),
            scoped: scoped("a/b.txt"),
        },
        ResolvedPath {
            path: "untagged".to_string(),
            scoped: scoped("untagged"),
        },
    ];
    let data = |name: &str, explicit: bool| TagData {
        tag_name: name.to_string(),
        value_name: None,
        explicit,
        implicit: !explicit,
    };
    assert_eq!(
        list_tags_for_paths(&paths, &files, &file_tags, &rules, &tags, &vec![]),
        Ok(vec![FileTagGroup {
            path: "a/b.txt".to_string(),
            tags: vec![data("audio", false), data("mp3", true), data("music", true)],
        }])
    );
    // the rule's tag is unknown to the store
    assert_eq!(
        list_tags_for_paths(&paths, &files, &file_tags, &rules, &tags[..2].to_vec(), &vec![]),
        Err(ErrorKind::NotFound)
    );
}
