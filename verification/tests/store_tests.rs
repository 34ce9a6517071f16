use std::rc::Rc;
use tmsu::delete::{
    delete_tag, delete_value, extract_file_ids, names_a_value_reply, run_delete_tag,
    run_delete_value, Cascade,
    CascadeStep, DeletionStep,
};
use tmsu::entities::{File, FileId, FileTag, Implication, Tag, TagId, Value, ValueId};
use tmsu::errors::ErrorKind;
use tmsu::implied::add_implied_file_tags;
use tmsu::path::{Answer, CanonicalPath, Lookup, Probe, Resolution, ScopedPath};
use tmsu::rename::{
    run_rename_tag, run_rename_value, validate_tag_name, validate_value_name, Rename, RenameStep,
};
use tmsu::tags::{list_tags_for_paths, ResolvedPath};
use tmsu::storage::{
    collation_for, expect_one_row, generate_placeholders, inserted_tag, inserted_value,
    parse_file_tag, tags_by_names, value_id_from_sql, value_id_to_sql, values_by_names, Param,
    Reply, Request, SqlBuilder, Table,
};

/// The tables of a store, and how they answer requests.
#[derive(Debug, Clone, PartialEq)]
struct Tables {
    tags: Vec<Tag>,
    values: Vec<Value>,
    files: Vec<FileId>,
    file_tags: Vec<FileTag>,
    implications: Vec<Implication>,
    /// The requests that were made, in order.
    asked: Vec<Request>,
    /// The number of the request that is to fail, counted from 0.
    fail_at: Option<usize>,
}

impl Tables {
    fn perform(&mut self, request: Request) -> Reply {
        let n = self.asked.len();
        self.asked.push(request.clone());
        if self.fail_at == Some(n) {
            return Reply::Failed;
        }
        match request {
            Request::TagByName(name) => {
                Reply::Tag(self.tags.iter().find(|t| t.name == name).cloned())
            }
            Request::ValueByName(name) => {
                Reply::Value(self.values.iter().find(|v| v.name == name).cloned())
            }
            Request::FileTagsByTag(id) => Reply::FileTags(
                self.file_tags.iter().filter(|ft| ft.tag_id == id).cloned().collect(),
            ),
            Request::FileTagsByValue(id) => Reply::FileTags(
                self.file_tags
                    .iter()
                    .filter(|ft| ft.value_id == Some(id))
                    .cloned()
                    .collect(),
            ),
            Request::DeleteFileTagsByTag(id) => {
                let before = self.file_tags.len();
                self.file_tags.retain(|ft| ft.tag_id != id);
                Reply::Affected(before - self.file_tags.len())
            }
            Request::DeleteFileTagsByValue(id) => {
                let before = self.file_tags.len();
                self.file_tags.retain(|ft| ft.value_id != Some(id));
                Reply::Affected(before - self.file_tags.len())
            }
            Request::DeleteFileIfUntagged(id) => {
                let before = self.files.len();
                if !self.file_tags.iter().any(|ft| ft.file_id == id) {
                    self.files.retain(|f| *f != id);
                }
                Reply::Affected(before - self.files.len())
            }
            Request::DeleteImplicationsByTag(id) => {
                let before = self.implications.len();
                self.implications
                    .retain(|i| i.implying_tag_id != id && i.implied_tag_id != id);
                Reply::Affected(before - self.implications.len())
            }
            Request::DeleteImplicationsByValue(id) => {
                let before = self.implications.len();
                self.implications.retain(|i| {
                    i.implying_value_id != Some(id) && i.implied_value_id != Some(id)
                });
                Reply::Affected(before - self.implications.len())
            }
            Request::DeleteTag(id) => {
                let before = self.tags.len();
                self.tags.retain(|t| t.id != id);
                Reply::Affected(before - self.tags.len())
            }
            Request::DeleteValue(id) => {
                let before = self.values.len();
                self.values.retain(|v| v.id != id);
                Reply::Affected(before - self.values.len())
            }
            Request::RenameTag(id, name) => {
                let mut changed = 0;
                for t in self.tags.iter_mut().filter(|t| t.id == id) {
                    t.name = name.clone();
                    changed += 1;
                }
                Reply::Affected(changed)
            }
            Request::RenameValue(id, name) => {
                let mut changed = 0;
                for v in self.values.iter_mut().filter(|v| v.id == id) {
                    v.name = name.clone();
                    changed += 1;
                }
                Reply::Affected(changed)
            }
            Request::Tags => Reply::Tags(self.tags.clone()),
            Request::Values => Reply::Values(self.values.clone()),
            Request::FileTags => Reply::FileTags(self.file_tags.clone()),
            Request::Implications => Reply::Implications(self.implications.clone()),
            Request::Count(table) => Reply::Count(match table {
                Table::File => self.files.len(),
                Table::FileTag => self.file_tags.len(),
                Table::Tag => self.tags.len(),
                Table::Value => self.values.len(),
            } as u64),
            Request::InsertTag(name) => {
                let id = self.tags.iter().map(|t| t.id.0).max().unwrap_or(0) + 1;
                self.tags.push(tag(id, &name));
                Reply::Inserted(id)
            }
            Request::InsertValue(name) => {
                let id = self.values.iter().map(|v| v.id.0).max().unwrap_or(0) + 1;
                self.values.push(value(id, &name));
                Reply::Inserted(id)
            }
            Request::CopyFileTags(from, to) => {
                let copies: Vec<FileTag> = self
                    .file_tags
                    .iter()
                    .filter(|ft| ft.tag_id == from)
                    .map(|ft| FileTag { tag_id: to, ..*ft })
                    .collect();
                self.file_tags.extend(copies.iter().cloned());
                Reply::Affected(copies.len())
            }
            Request::Files
            | Request::FileByPath(_, _)
            | Request::ValuesByTag(_)
            | Request::TagUsage => Reply::Failed,
            Request::AddFileTag(file, tag, value) => {
                let row = FileTag {
                    file_id: file,
                    tag_id: tag,
                    value_id: value,
                    explicit: true,
                    implicit: false,
                };
                if self.file_tags.contains(&row) {
                    Reply::Affected(0)
                } else {
                    self.file_tags.push(row);
                    Reply::Affected(1)
                }
            }
        }
    }

    /// Runs a deletion in a transaction of its own.
    fn delete(&mut self, mut step: DeletionStep) -> Result<(), ErrorKind> {
        let before = self.clone();
        loop {
            match step {
                DeletionStep::Ask(deletion) => {
                    let reply = self.perform(deletion.request());
                    step = deletion.advance(reply);
                }
                DeletionStep::Commit => return Ok(()),
                DeletionStep::Rollback(e) => {
                    self.rollback(before);
                    return Err(e);
                }
            }
        }
    }

    /// Runs a rename in a transaction of its own.
    fn rename(&mut self, rename: Rename) -> Result<(), ErrorKind> {
        let before = self.clone();
        let mut step = RenameStep::Ask(rename);
        loop {
            match step {
                RenameStep::Ask(rename) => {
                    let reply = self.perform(rename.request());
                    step = rename.advance(reply);
                }
                RenameStep::Commit => return Ok(()),
                RenameStep::Rollback(e) => {
                    self.rollback(before);
                    return Err(e);
                }
            }
        }
    }

    /// Runs one cascade, without a transaction round it.
    fn cascade(&mut self, cascade: Cascade) -> Result<(), ErrorKind> {
        let mut step = CascadeStep::Ask(cascade);
        loop {
            match step {
                CascadeStep::Ask(cascade) => {
                    let reply = self.perform(cascade.request());
                    step = cascade.advance(reply);
                }
                CascadeStep::Done => return Ok(()),
                CascadeStep::Failed(e) => return Err(e),
            }
        }
    }

    fn rollback(&mut self, before: Tables) {
        let asked = std::mem::take(&mut self.asked);
        *self = before;
        self.asked = asked;
    }

    fn tag_names(&self) -> Vec<&str> {
        self.tags.iter().map(|t| t.name.as_str()).collect()
    }
}

fn tag(id: u32, name: &str) -> Tag {
    Tag {
        id: TagId(id),
        name: name.to_string(),
    }
}

fn value(id: u32, name: &str) -> Value {
    Value {
        id: ValueId(id),
        name: name.to_string(),
    }
}

fn file_tag(file: u32, tag: u32, value: Option<u32>) -> FileTag {
    FileTag {
        file_id: FileId(file),
        tag_id: TagId(tag),
        value_id: value.map(ValueId),
        explicit: true,
        implicit: false,
    }
}

fn rule(from: (u32, Option<u32>), to: (u32, Option<u32>)) -> Implication {
    Implication {
        implying_tag_id: TagId(from.0),
        implying_value_id: from.1.map(ValueId),
        implied_tag_id: TagId(to.0),
        implied_value_id: to.1.map(ValueId),
    }
}

fn names(v: &[&str]) -> Vec<String> {
    v.iter().map(|s| s.to_string()).collect()
}

/// music = 1, mp3 = 2, audio = 3; file 1 has music and mp3, file 2 has mp3
/// alone; mp3 implies audio, audio implies music.
fn scenario() -> Tables {
    Tables {
        tags: vec![tag(1, "music"), tag(2, "mp3"), tag(3, "audio")],
        values: vec![value(10, "1999"), value(11, "2000")],
        files: vec![FileId(1), FileId(2), FileId(3)],
        file_tags: vec![
            file_tag(1, 1, None),
            file_tag(1, 2, None),
            file_tag(2, 2, Some(10)),
            file_tag(3, 3, Some(11)),
        ],
        implications: vec![rule((2, None), (3, None)), rule((3, None), (1, None))],
        asked: vec![],
        fail_at: None,
    }
}

#[test]
fn deleting_a_tag_cascades() {
    let mut store = scenario();
    assert_eq!(store.delete(run_delete_tag(names(&["mp3"]))), Ok(()));
    // the file with another tag survives with it, the file without is gone
    assert_eq!(store.files, vec![FileId(1), FileId(3)]);
    assert_eq!(store.file_tags, vec![file_tag(1, 1, None), file_tag(3, 3, Some(11))]);
    // the rule of the tag is gone, the other one stays
    assert_eq!(store.implications, vec![rule((3, None), (1, None))]);
    assert_eq!(store.tag_names(), vec!["music", "audio"]);
    assert_eq!(
        store.asked,
        vec![
            Request::TagByName("mp3".to_string()),
            Request::FileTagsByTag(TagId(2)),
            Request::DeleteFileTagsByTag(TagId(2)),
            Request::DeleteFileIfUntagged(FileId(1)),
            Request::DeleteFileIfUntagged(FileId(2)),
            Request::DeleteImplicationsByTag(TagId(2)),
            Request::DeleteTag(TagId(2)),
        ]
    );
    // what is left of the file's tags, with what they imply
    let left: Vec<FileTag> = store
        .file_tags
        .iter()
        .filter(|ft| ft.file_id == FileId(1))
        .cloned()
        .collect();
    assert_eq!(
        add_implied_file_tags(&left, &store.implications),
        vec![file_tag(1, 1, None)]
    );
}

#[test]
fn deleting_the_sole_tag_removes_the_file() {
    let mut store = scenario();
    assert_eq!(store.delete(run_delete_tag(names(&["audio"]))), Ok(()));
    assert_eq!(store.files, vec![FileId(1), FileId(2)]);
    assert_eq!(store.implications, vec![]);
    assert_eq!(store.tag_names(), vec!["music", "mp3"]);
}

#[test]
fn deleting_several_tags_in_one_transaction() {
    let mut store = scenario();
    assert_eq!(store.delete(run_delete_tag(names(&["music", "mp3"]))), Ok(()));
    assert_eq!(store.files, vec![FileId(3)]);
    assert_eq!(store.tag_names(), vec!["audio"]);
    let mut nothing = scenario();
    let before = nothing.clone();
    assert_eq!(nothing.delete(run_delete_tag(vec![])), Ok(()));
    assert_eq!(nothing, before);
}

#[test]
fn deleting_an_unknown_tag_changes_nothing() {
    let mut store = scenario();
    let before = store.clone();
    assert_eq!(
        store.delete(run_delete_tag(names(&["mp3", "flac"]))),
        Err(ErrorKind::NotFound)
    );
    store.asked.clear();
    assert_eq!(store, before);
}

#[test]
fn failed_step_rolls_the_cascade_back() {
    for fail_at in 0..7 {
        let mut store = scenario();
        let before = store.clone();
        store.fail_at = Some(fail_at);
        assert_eq!(
            store.delete(run_delete_tag(names(&["mp3"]))),
            Err(ErrorKind::StoreAccess)
        );
        assert_eq!(store.asked.len(), fail_at + 1);
        store.asked.clear();
        store.fail_at = None;
        assert_eq!(store, before);
    }
}

#[test]
fn deleting_a_value_cascades() {
    let mut store = scenario();
    store.implications.push(rule((1, Some(10)), (3, None)));
    store.implications.push(rule((1, None), (3, Some(10))));
    assert_eq!(store.delete(run_delete_value(names(&["1999"]))), Ok(()));
    assert_eq!(store.files, vec![FileId(1), FileId(3)]);
    assert_eq!(store.values, vec![value(11, "2000")]);
    assert_eq!(
        store.implications,
        vec![rule((2, None), (3, None)), rule((3, None), (1, None))]
    );
    assert_eq!(
        store.asked,
        vec![
            Request::ValueByName("1999".to_string()),
            Request::FileTagsByValue(ValueId(10)),
            Request::DeleteFileTagsByValue(ValueId(10)),
            Request::DeleteFileIfUntagged(FileId(2)),
            Request::DeleteImplicationsByValue(ValueId(10)),
            Request::DeleteValue(ValueId(10)),
        ]
    );
    let mut store = scenario();
    assert_eq!(
        store.delete(run_delete_value(names(&["1998"]))),
        Err(ErrorKind::NotFound)
    );
}

#[test]
fn deleting_what_is_not_there_violates_integrity() {
    let mut store = scenario();
    assert_eq!(
        store.cascade(delete_tag(&tag(9, "ghost"))),
        Err(ErrorKind::IntegrityViolation)
    );
    assert_eq!(
        store.cascade(delete_value(&value(9, "ghost"))),
        Err(ErrorKind::IntegrityViolation)
    );
    assert_eq!(store.cascade(delete_tag(&tag(3, "audio"))), Ok(()));
}

#[test]
fn cascade_rejects_replies_of_another_kind() {
    let cascade = delete_tag(&tag(2, "mp3"));
    assert_eq!(cascade.request(), Request::FileTagsByTag(TagId(2)));
    assert!(matches!(
        cascade.advance(Reply::Affected(1)),
        CascadeStep::Failed(ErrorKind::StoreAccess)
    ));
    let cascade = delete_tag(&tag(2, "mp3"));
    match cascade.advance(Reply::FileTags(vec![])) {
        CascadeStep::Ask(cascade) => {
            assert_eq!(cascade.request(), Request::DeleteFileTagsByTag(TagId(2)));
            assert!(matches!(
                cascade.advance(Reply::Tag(None)),
                CascadeStep::Failed(ErrorKind::StoreAccess)
            ));
        }
        _ => panic!("the cascade ended"),
    }
}

#[test]
fn file_ids_are_extracted_one_for_one() {
    assert_eq!(
        extract_file_ids(&vec![file_tag(3, 1, None), file_tag(1, 1, None), file_tag(3, 2, None)]),
        vec![FileId(3), FileId(1), FileId(3)]
    );
    assert_eq!(extract_file_ids(&vec![]), vec![]);
}

#[test]
fn renaming_to_a_taken_name_changes_nothing() {
    let mut store = scenario();
    let before = store.clone();
    assert_eq!(
        store.rename(run_rename_tag("music".to_string(), "mp3".to_string())),
        Err(ErrorKind::AlreadyExists)
    );
    assert_eq!(
        store.asked,
        vec![
            Request::TagByName("music".to_string()),
            Request::TagByName("mp3".to_string()),
        ]
    );
    store.asked.clear();
    assert_eq!(store, before);
}

#[test]
fn renaming_to_a_free_name_shows_under_it() {
    let mut store = scenario();
    assert_eq!(
        store.rename(run_rename_tag("music".to_string(), "sound".to_string())),
        Ok(())
    );
    assert_eq!(store.tag_names(), vec!["sound", "mp3", "audio"]);
    assert_eq!(
        store.asked.last(),
        Some(&Request::RenameTag(TagId(1), "sound".to_string()))
    );
    assert_eq!(
        store.rename(run_rename_value("1999".to_string(), "1998".to_string())),
        Ok(())
    );
    assert_eq!(store.values, vec![value(10, "1998"), value(11, "2000")]);
}

#[test]
fn renaming_fails_before_any_change() {
    let mut store = scenario();
    let before = store.clone();
    assert_eq!(
        store.rename(run_rename_tag("flac".to_string(), "sound".to_string())),
        Err(ErrorKind::NotFound)
    );
    assert_eq!(
        store.rename(run_rename_tag("music".to_string(), "".to_string())),
        Err(ErrorKind::InvalidName)
    );
    assert_eq!(
        store.rename(run_rename_value("1999".to_string(), "2000".to_string())),
        Err(ErrorKind::AlreadyExists)
    );
    assert_eq!(
        store.rename(run_rename_value("1999".to_string(), "".to_string())),
        Err(ErrorKind::InvalidName)
    );
    assert!(store.asked.iter().all(|r| matches!(
        r,
        Request::TagByName(_) | Request::ValueByName(_)
    )));
    store.asked.clear();
    assert_eq!(store, before);
    for fail_at in 0..3 {
        let mut store = scenario();
        store.fail_at = Some(fail_at);
        assert_eq!(
            store.rename(run_rename_tag("music".to_string(), "sound".to_string())),
            Err(ErrorKind::StoreAccess)
        );
        store.asked.clear();
        store.fail_at = None;
        assert_eq!(store, before);
    }
}

#[test]
fn rename_that_changes_no_row_violates_integrity() {
    let rename = run_rename_tag("a".to_string(), "b".to_string());
    let step = rename.advance(Reply::Tag(Some(tag(1, "a"))));
    let step = match step {
        RenameStep::Ask(r) => r.advance(Reply::Tag(None)),
        _ => panic!("the rename ended"),
    };
    match step {
        RenameStep::Ask(r) => {
            assert_eq!(r.request(), Request::RenameTag(TagId(1), "b".to_string()));
            assert!(matches!(
                r.advance(Reply::Affected(0)),
                RenameStep::Rollback(ErrorKind::IntegrityViolation)
            ));
        }
        _ => panic!("the rename ended"),
    }
}

#[test]
fn names_must_not_be_empty() {
    assert_eq!(validate_tag_name("a"), Ok(()));
    assert_eq!(validate_tag_name(""), Err(ErrorKind::InvalidName));
    assert_eq!(validate_value_name("2000"), Ok(()));
    assert_eq!(validate_value_name(""), Err(ErrorKind::InvalidName));
}

#[test]
fn one_row_is_expected() {
    assert_eq!(expect_one_row(1), Ok(()));
    assert_eq!(expect_one_row(0), Err(ErrorKind::IntegrityViolation));
    assert_eq!(expect_one_row(2), Err(ErrorKind::IntegrityViolation));
}

#[test]
fn no_value_is_stored_as_zero() {
    assert_eq!(value_id_to_sql(None), 0);
    assert_eq!(value_id_to_sql(Some(ValueId(7))), 7);
    assert_eq!(value_id_from_sql(0), None);
    assert_eq!(value_id_from_sql(7), Some(ValueId(7)));
    assert_eq!(parse_file_tag(1, 2, 0), file_tag(1, 2, None));
    assert_eq!(parse_file_tag(1, 2, 3), file_tag(1, 2, Some(3)));
}

#[test]
fn placeholders_are_generated() {
    assert_eq!(
        generate_placeholders(&names(&["a", "b", "c"])),
        Ok((
            "?,?,?".to_string(),
            vec![
                Param::Text("a".to_string()),
                Param::Text("b".to_string()),
                Param::Text("c".to_string())
            ]
        ))
    );
    assert_eq!(
        generate_placeholders(&names(&["a"])),
        Ok(("?".to_string(), vec![Param::Text("a".to_string())]))
    );
    assert_eq!(generate_placeholders(&vec![]), Err(ErrorKind::NoPlaceholder));
}

#[test]
fn collation_follows_case_flag() {
    assert_eq!(collation_for(true), " COLLATE NOCASE");
    assert_eq!(collation_for(false), "");
}

#[test]
fn builder_joins_text_and_parameters() {
    let mut b = SqlBuilder::new();
    b.append_sql("SELECT id FROM tag");
    b.append_sql("");
    b.append_sql("WHERE name IN (");
    b.append_param(Param::Text("a".to_string()));
    b.append_param(Param::Text("b".to_string()));
    b.append_sql(")");
    b.append_sql(" AND id = ");
    b.append_param(Param::Id(3));
    b.append_sql("\nORDER BY name");
    assert_eq!(
        b.sql(),
        "\nSELECT id FROM tag\nWHERE name IN (?,?\n) AND id = ?\nORDER BY name"
    );
    assert_eq!(
        b.params(),
        vec![
            Param::Text("a".to_string()),
            Param::Text("b".to_string()),
            Param::Id(3)
        ]
    );
    let mut c = SqlBuilder::new();
    c.append_param(Param::Id(1));
    c.append_sql("");
    c.append_param(Param::Id(2));
    assert_eq!(c.sql(), "?,?");
}

#[test]
fn requests_have_statements() {
    let s = Request::DeleteFileIfUntagged(FileId(4)).statement();
    assert_eq!(
        s.sql,
        "\nDELETE FROM file\nWHERE id = ?1\nAND (SELECT count(1)\n     FROM file_tag\n     WHERE file_id = ?1) == 0"
    );
    assert_eq!(s.params, vec![Param::Id(4)]);
    let s = Request::RenameTag(TagId(2), "new".to_string()).statement();
    assert_eq!(s.sql, "\nUPDATE tag\nSET name = ?\nWHERE id = ?");
    assert_eq!(s.params, vec![Param::Text("new".to_string()), Param::Id(2)]);
    let s = Request::TagByName("a".to_string()).statement();
    assert_eq!(s.sql, "\nSELECT id, name\nFROM tag\nWHERE name IN (?)");
    assert_eq!(s.params, vec![Param::Text("a".to_string())]);
    let s = Request::FileTagsByValue(ValueId(9)).statement();
    assert_eq!(
        s.sql,
        "\nSELECT file_id, tag_id, value_id\nFROM file_tag\nWHERE value_id = ?1"
    );
    assert_eq!(s.params, vec![Param::Id(9)]);
    let s = Request::DeleteTag(TagId(1)).statement();
    assert_eq!(s.sql, "\nDELETE FROM tag\nWHERE id = ?");
    let s = Request::AddFileTag(FileId(1), TagId(2), None).statement();
    assert_eq!(
        s.sql,
        "\nINSERT OR IGNORE INTO file_tag (file_id, tag_id, value_id)\nVALUES (?1, ?2, ?3)"
    );
    assert_eq!(s.params, vec![Param::Id(1), Param::Id(2), Param::Id(0)]);
    let s = Request::AddFileTag(FileId(1), TagId(2), Some(ValueId(3))).statement();
    assert_eq!(s.params, vec![Param::Id(1), Param::Id(2), Param::Id(3)]);
}

#[test]
fn every_request_has_its_statement() {
    let text = |r: Request| r.statement().sql;
    assert_eq!(text(Request::Tags), "\nSELECT id, name\nFROM tag\nORDER BY name");
    assert_eq!(text(Request::Values), "\nSELECT id, name\nFROM value\nORDER BY name");
    assert_eq!(text(Request::Count(Table::File)), "\nSELECT count(*)\nFROM file");
    assert_eq!(text(Request::Count(Table::FileTag)), "\nSELECT count(*)\nFROM file_tag");
    assert_eq!(text(Request::Count(Table::Tag)), "\nSELECT count(*)\nFROM tag");
    assert_eq!(text(Request::Count(Table::Value)), "\nSELECT count(*)\nFROM value");
    assert_eq!(Request::Count(Table::Tag).statement().params, vec![]);
    let s = Request::FileByPath("a".to_string(), "b.txt".to_string()).statement();
    assert_eq!(
        s.sql,
        "\nSELECT id, directory, name, fingerprint, mod_time, size, is_dir\nFROM file\nWHERE directory = ? AND name = ?"
    );
    assert_eq!(
        s.params,
        vec![Param::Text("a".to_string()), Param::Text("b.txt".to_string())]
    );
    let s = Request::CopyFileTags(TagId(1), TagId(2)).statement();
    assert_eq!(
        s.sql,
        "\nINSERT INTO file_tag (file_id, tag_id, value_id)\nSELECT file_id, ?2, value_id\nFROM file_tag\nWHERE tag_id = ?1"
    );
    assert_eq!(s.params, vec![Param::Id(1), Param::Id(2)]);
    let s = Request::InsertTag("new".to_string()).statement();
    assert_eq!(s.sql, "\nINSERT INTO tag (name)\nVALUES (?)");
    assert_eq!(s.params, vec![Param::Text("new".to_string())]);
    let s = Request::InsertValue("new".to_string()).statement();
    assert_eq!(s.sql, "\nINSERT INTO value (name)\nVALUES (?)");
    let s = Request::ValuesByTag(TagId(5)).statement();
    assert_eq!(
        s.sql,
        "\nSELECT id, name\nFROM value\nWHERE id IN (SELECT value_id\n             FROM file_tag\n             WHERE tag_id = ?1)\nORDER BY name"
    );
    assert_eq!(s.params, vec![Param::Id(5)]);
    assert_eq!(
        text(Request::TagUsage),
        "\nSELECT t.id, t.name, count(file_id)\nFROM file_tag ft, tag t\nWHERE ft.tag_id = t.id\nGROUP BY t.id\nORDER BY t.name"
    );
}

#[test]
fn inserted_rows_are_named() {
    let mut store = scenario();
    let reply = store.perform(Request::InsertTag("flac".to_string()));
    assert_eq!(inserted_tag("flac".to_string(), reply), Ok(tag(4, "flac")));
    let reply = store.perform(Request::InsertValue("2001".to_string()));
    assert_eq!(inserted_value("2001".to_string(), reply), Ok(value(12, "2001")));
    assert_eq!(
        inserted_tag("x".to_string(), Reply::Affected(1)),
        Err(ErrorKind::StoreAccess)
    );
    assert_eq!(
        inserted_value("x".to_string(), Reply::Failed),
        Err(ErrorKind::StoreAccess)
    );
    assert!(matches!(
        store.perform(Request::Count(Table::Tag)),
        Reply::Count(4)
    ));
}

#[test]
fn statements_select_by_names() {
    let s = tags_by_names(&names(&["a", "b"])).unwrap();
    assert_eq!(s.sql, "\nSELECT id, name\nFROM tag\nWHERE name IN (?,?)");
    assert_eq!(
        s.params,
        vec![Param::Text("a".to_string()), Param::Text("b".to_string())]
    );
    let s = values_by_names(&names(&["v"])).unwrap();
    assert_eq!(s.sql, "\nSELECT id, name\nFROM value\nWHERE name IN (?)");
    assert_eq!(tags_by_names(&vec![]), None);
    assert_eq!(values_by_names(&vec![]), None);
}

#[test]
fn tagging_twice_adds_one_row() {
    let mut store = scenario();
    let before = store.file_tags.len();
    assert!(matches!(
        store.perform(Request::AddFileTag(FileId(3), TagId(1), None)),
        Reply::Affected(1)
    ));
    assert!(matches!(
        store.perform(Request::AddFileTag(FileId(3), TagId(1), None)),
        Reply::Affected(0)
    ));
    assert_eq!(store.file_tags.len(), before + 1);
}

#[test]
fn scenario_from_listing_to_deletion() {
    // root /tmp/root; a/b.txt is tagged music and mp3; mp3 implies audio
    let mut store = Tables {
        tags: vec![tag(1, "music"), tag(2, "mp3"), tag(3, "audio")],
        values: vec![],
        files: vec![FileId(1)],
        file_tags: vec![file_tag(1, 1, None), file_tag(1, 2, None)],
        implications: vec![rule((2, None), (3, None))],
        asked: vec![],
        fail_at: None,
    };
    let files = vec![File {
        id: FileId(1),
        dir: "a".to_string(),
        name: "b.txt".to_string(),
        fingerprint: String::new(),
        mod_time: String::new(),
        size: 0,
        is_dir: false,
    }];
    let resolve = || {
        let base = Rc::new(
            CanonicalPath::new(Lookup::Found {
                path: "/tmp/root".to_string(),
                is_dir: true,
            })
            .unwrap(),
        );
        let mut r = ScopedPath::new(base, "a/b.txt");
        loop {
            match r {
                Resolution::Ask(walk) => {
                    let answer = match walk.probe() {
                        Probe::IsSymlink(_) => Answer::Symlink(false),
                        Probe::Canonicalize(p) => Answer::Canonical(Lookup::Found {
                            path: p,
                            is_dir: false,
                        }),
                    };
                    r = walk.answer(answer);
                }
                Resolution::Done(scoped) => {
                    return vec![ResolvedPath {
                        path: "a/b.txt".to_string(),
                        scoped,
                    }]
                }
                Resolution::Failed(e) => panic!("failed: {:?}", e),
            }
        }
    };
    let listed = |store: &Tables| -> Vec<(String, bool, bool)> {
        let groups = list_tags_for_paths(
            &resolve(),
            &files,
            &store.file_tags,
            &store.implications,
            &store.tags,
            &store.values,
        )
        .unwrap();
        assert_eq!(groups.len(), 1);
        groups[0]
            .tags
            .iter()
            .map(|d| (d.tag_name.clone(), d.explicit, d.implicit))
            .collect()
    };
    assert_eq!(
        listed(&store),
        vec![
            ("audio".to_string(), false, true),
            ("mp3".to_string(), true, false),
            ("music".to_string(), true, false)
        ]
    );
    assert_eq!(store.delete(run_delete_tag(names(&["mp3"]))), Ok(()));
    assert_eq!(listed(&store), vec![("music".to_string(), true, false)]);
    assert_eq!(store.implications, vec![]);
    assert_eq!(store.files, vec![FileId(1)]);
    assert_eq!(store.file_tags, vec![file_tag(1, 1, None)]);
}

#[test]
fn value_zero_is_no_value() {
    assert!(names_a_value_reply(&Reply::Value(Some(value(1, "v")))));
    assert!(!names_a_value_reply(&Reply::Value(Some(value(0, "")))));
    assert!(names_a_value_reply(&Reply::Value(None)));
    assert!(names_a_value_reply(&Reply::Affected(0)));
    assert_eq!(Table::FileTag.as_str(), "file_tag");
}
