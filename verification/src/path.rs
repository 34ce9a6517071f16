//! Paths scoped to a root directory.
//!
//! A [`ScopedPath`] is kept relative to its root where it lies inside the
//! root and absolute where it does not. Finding that out takes questions to
//! the file system, which this module never asks itself: [`ScopedPath::new`]
//! begins a walk over the path's components, the walk says what it needs to know
//! ([`Walk::probe`]), and goes on once it is told ([`Walk::answer`]).

use crate::errors::ErrorKind;
use crate::lexical::{
    begins_with, clean, cleaned, components, components_of, dot_text, dotdot_text, file_name,
    is_absolute, is_absolute_path, is_name, is_segment, join, join_all, joined, joined_all,
    lemma_component_facts, lemma_components_of_joined, lemma_components_of_pushed_all, name_of,
    names_entry, parent, parent_of, root_text, scan, starts_with, strip_prefix, stripped, texts,
};
use crate::order::same_text;
use std::rc::Rc;
use vstd::prelude::*;
use vstd::string::*;

verus! {

/// What the file system makes of a path that is to be made canonical.
pub enum Lookup {
    /// The path exists; its canonical form, and whether it is a directory.
    Found { path: String, is_dir: bool },
    /// Nothing exists at the path.
    Missing,
    /// The path exists, or may exist, and could not be resolved.
    Failed(ErrorKind),
}

/// An existing file or directory, by its canonical, absolute path.
pub struct CanonicalPath {
    path: String,
    dir: bool,
}

impl View for CanonicalPath {
    type V = Seq<char>;

    closed spec fn view(&self) -> Seq<char> {
        self.path@
    }
}

impl CanonicalPath {
    #[verifier::type_invariant]
    spec fn wf(&self) -> bool {
        is_absolute(self.path@)
    }

    /// Whether the path was a directory when it was looked up.
    pub closed spec fn dir(&self) -> bool {
        self.dir
    }

    /// The canonical path that a lookup found. A missing path is `NotFound`,
    /// a failed lookup keeps its error, and a found path that is not absolute
    /// is no canonical path: `Io`.
    pub fn new(lookup: Lookup) -> (r: Result<CanonicalPath, ErrorKind>)
        ensures
            match lookup {
                Lookup::Found { path, is_dir } => if is_absolute(path@) {
                    r.is_ok() && r.unwrap()@ == path@ && r.unwrap().dir() == is_dir
                } else {
                    r == Err::<CanonicalPath, ErrorKind>(ErrorKind::Io)
                },
                Lookup::Missing => r == Err::<CanonicalPath, ErrorKind>(ErrorKind::NotFound),
                Lookup::Failed(e) => r == Err::<CanonicalPath, ErrorKind>(e),
            },
    {
        match lookup {
            Lookup::Found { path, is_dir } => {
                if is_absolute_path(path.as_str()) {
                    Ok(CanonicalPath { path, dir: is_dir })
                } else {
                    Err(ErrorKind::Io)
                }
            },
            Lookup::Missing => Err(ErrorKind::NotFound),
            Lookup::Failed(e) => Err(e),
        }
    }

    /// The path's text, which is absolute.
    pub fn as_str(&self) -> (r: &str)
        ensures
            r@ == self@,
            is_absolute(self@),
    {
        proof {
            use_type_invariant(self);
        }
        self.path.as_str()
    }

    pub fn is_dir(&self) -> (r: bool)
        ensures
            r == self.dir(),
    {
        self.dir
    }

    pub fn to_abs_path(&self) -> (r: AbsPath)
        ensures
            r@ == self@,
    {
        proof {
            use_type_invariant(self);
        }
        AbsPath::from_unchecked(self.path.clone())
    }
}

/// An absolute path, which need not exist.
pub struct AbsPath {
    path: String,
}

impl View for AbsPath {
    type V = Seq<char>;

    closed spec fn view(&self) -> Seq<char> {
        self.path@
    }
}

/// `path` made absolute: itself where it is absolute, else cleaned behind `base`.
pub open spec fn absolute_of(path: Seq<char>, base: Seq<char>) -> Seq<char> {
    if is_absolute(path) {
        path
    } else {
        cleaned(joined(base, path))
    }
}

impl AbsPath {
    #[verifier::type_invariant]
    spec fn wf(&self) -> bool {
        is_absolute(self.path@)
    }

    /// Takes an absolute path as it is.
    pub fn from_unchecked(abs: String) -> (r: AbsPath)
        requires
            is_absolute(abs@),
        ensures
            r@ == abs@,
    {
        AbsPath { path: abs }
    }

    /// Makes `path` absolute: an absolute one is kept as it is, a relative
    /// one is pushed onto `base` and cleaned.
    pub fn from(path: &str, base: &AbsPath) -> (r: AbsPath)
        ensures
            r@ == absolute_of(path@, base@),
    {
        proof {
            use_type_invariant(base);
        }
        if is_absolute_path(path) {
            AbsPath { path: String::from_str(path) }
        } else {
            let whole = join(base.path.as_str(), path);
            AbsPath { path: clean(whole.as_str()) }
        }
    }

    /// The path's text, which is absolute.
    pub fn as_str(&self) -> (r: &str)
        ensures
            r@ == self@,
            is_absolute(self@),
    {
        proof {
            use_type_invariant(self);
        }
        self.path.as_str()
    }

    /// The path relative to `base`, where it lies at or below `base`.
    pub fn rel_to(&self, base: &CanonicalPath) -> (r: Option<String>)
        ensures
            r.is_some() == begins_with(self@, base@),
            r.is_some() ==> Some(r.unwrap()@) == stripped(self@, base@),
    {
        strip_prefix(self.path.as_str(), base.as_str())
    }
}

/// What became of a path that was to exist in canonical form or, failing
/// that, in cleaned form.
pub open spec fn settled(path: Seq<char>, lookup: Lookup) -> Result<Seq<char>, ErrorKind> {
    match lookup {
        Lookup::Found { path: canonical, is_dir } => Ok(canonical@),
        Lookup::Missing => Ok(cleaned(path)),
        Lookup::Failed(e) => Err(e),
    }
}

/// The canonical form of a path that exists, the cleaned form of one that
/// does not, and the error of a lookup that failed.
pub fn canonicalize_or_clean(path: &str, lookup: Lookup) -> (r: Result<String, ErrorKind>)
    ensures
        r.is_ok() == settled(path@, lookup).is_ok(),
        r.is_ok() ==> Ok::<Seq<char>, ErrorKind>(r.unwrap()@) == settled(path@, lookup),
        r.is_err() ==> Err::<Seq<char>, ErrorKind>(r.unwrap_err()) == settled(path@, lookup),
{
    match lookup {
        Lookup::Found { path: canonical, is_dir } => Ok(canonical),
        Lookup::Missing => Ok(clean(path)),
        Lookup::Failed(e) => Err(e),
    }
}

/// How an absolute path is kept under `base`: relative to `base` where it
/// lies at or below it (`.` for `base` itself), else as it is.
pub open spec fn scoped_inner(abs: Seq<char>, base: Seq<char>) -> Seq<char> {
    match stripped(abs, base) {
        Some(rel) => if rel.len() == 0 {
            dot_text()
        } else {
            rel
        },
        None => abs,
    }
}

/// The parent directory and the name under which a scoped path is stored.
/// The root and the current directory are their own parent and their own
/// name; a parent without components is written `.`.
pub open spec fn dir_and_name_of(inner: Seq<char>) -> (Seq<char>, Seq<char>) {
    let dir = match parent_of(inner) {
        Some(d) => d,
        None => inner,
    };
    let name = match name_of(inner) {
        Some(n) => n,
        None => inner,
    };
    (if dir.len() == 0 { dot_text() } else { dir }, name)
}

/// The path's last component is `..`.
pub open spec fn ends_in_parent_dir(p: Seq<char>) -> bool {
    components_of(p).len() > 0 && components_of(p).last() == dotdot_text()
}

/// A path together with the root that it is scoped to.
pub struct ScopedPath {
    base: Rc<CanonicalPath>,
    inner: String,
    absolute: String,
}

impl ScopedPath {
    #[verifier::type_invariant]
    spec fn wf(&self) -> bool {
        &&& is_absolute(self.base@)
        &&& is_absolute(self.absolute@)
        &&& self.inner@ == scoped_inner(self.absolute@, self.base@)
    }

    /// The root.
    pub closed spec fn base(&self) -> Seq<char> {
        self.base@
    }

    /// The stored form: relative to the root, or absolute.
    pub closed spec fn inner(&self) -> Seq<char> {
        self.inner@
    }

    /// The whole path.
    pub closed spec fn absolute(&self) -> Seq<char> {
        self.absolute@
    }

    /// Begins to resolve `path` against `base`. A relative path is taken
    /// from `base`, an absolute one from nothing; the answer is the scoped
    /// path where `path` has no components, else the walk at its first one.
    pub fn new(base: Rc<CanonicalPath>, path: &str) -> (r: Resolution)
        requires
            base.dir(),
        ensures
            r@ == sought(
                base@,
                components_of(path@),
                0,
                if is_absolute(path@) {
                    Seq::empty()
                } else {
                    base@
                },
            ),
    {
        let growing = if is_absolute_path(path) {
            String::new()
        } else {
            String::from_str(base.as_str())
        };
        let parts = components(path);
        seek(base, parts, 0, growing)
    }

    /// Scopes a path that has been walked to its end.
    fn scope(base: Rc<CanonicalPath>, walked: &str) -> (r: ScopedPath)
        ensures
            r.base() == base@,
            r.absolute() == absolute_of(walked@, base@),
            r.inner() == scoped_inner(r.absolute(), base@),
    {
        let abs = AbsPath::from(walked, &base.to_abs_path());
        let abs_text = String::from_str(abs.as_str());
        let inner = match abs.rel_to(&base) {
            Some(rel) => if rel.as_str().unicode_len() == 0 {
                proof {
                    reveal_strlit(".");
                }
                assert("."@ =~= dot_text());
                String::from_str(".")
            } else {
                rel
            },
            None => abs_text.clone(),
        };
        proof {
            use_type_invariant(&*base);
        }
        ScopedPath { base, inner, absolute: abs_text }
    }

    /// The stored form.
    pub fn inner_str(&self) -> (r: &str)
        ensures
            r@ == self.inner(),
            self.inner() == scoped_inner(self.absolute(), self.base()),
    {
        proof {
            use_type_invariant(self);
        }
        self.inner.as_str()
    }

    /// The whole path, which is absolute.
    pub fn absolute_str(&self) -> (r: &str)
        ensures
            r@ == self.absolute(),
            is_absolute(self.absolute()),
    {
        proof {
            use_type_invariant(self);
        }
        self.absolute.as_str()
    }

    /// Whether the stored form ends in `..`, which has no name to store.
    pub fn ends_with_parent_dir(&self) -> (r: bool)
        ensures
            r == ends_in_parent_dir(self.inner()),
    {
        let cs = components(self.inner.as_str());
        let n = cs.len();
        if n == 0 {
            return false;
        }
        let last = cs[n - 1].as_str();
        if last.unicode_len() == 2 {
            let c0 = last.get_char(0);
            let c1 = last.get_char(1);
            assert(last@ =~= seq![c0, c1]);
            c0 == '.' && c1 == '.'
        } else {
            false
        }
    }

    /// The parent directory and the name of the stored form, as the key
    /// under which the file is kept.
    pub fn inner_as_dir_and_name(&self) -> (r: (String, String))
        requires
            !ends_in_parent_dir(self.inner()),
        ensures
            r.0@ == dir_and_name_of(self.inner()).0,
            r.1@ == dir_and_name_of(self.inner()).1,
    {
        let dir = match parent(self.inner.as_str()) {
            Some(d) => d,
            None => self.inner.clone(),
        };
        let dir = if dir.as_str().unicode_len() == 0 {
            proof {
                reveal_strlit(".");
            }
            assert("."@ =~= dot_text());
            String::from_str(".")
        } else {
            dir
        };
        let name = match file_name(self.inner.as_str()) {
            Some(n) => n,
            None => self.inner.clone(),
        };
        (dir, name)
    }
}

/// A walk as the contracts see it.
pub struct WalkView {
    /// The root.
    pub base: Seq<char>,
    /// The components of the path that is being resolved.
    pub parts: Seq<Seq<char>>,
    /// The index of the component that the walk stands at.
    pub next: int,
    /// The path that the components before `next` have led to.
    pub growing: Seq<char>,
    /// Whether the walk has yet to learn if the extended path is a symlink.
    pub symlink_pending: bool,
}

/// A resolution as the contracts see it.
pub enum Outcome {
    /// The walk needs an answer.
    Ask(WalkView),
    /// The path is resolved.
    Done { base: Seq<char>, inner: Seq<char>, absolute: Seq<char> },
    /// A lookup failed.
    Failed(ErrorKind),
}

/// The path that a walk asks about: the path so far with the component at
/// `next`.
pub open spec fn extended_of(w: WalkView) -> Seq<char> {
    joined(w.growing, w.parts[w.next])
}

/// The resolution of a path that has been walked to its end.
pub open spec fn finished(base: Seq<char>, walked: Seq<char>) -> Outcome {
    Outcome::Done {
        base,
        inner: scoped_inner(absolute_of(walked, base), base),
        absolute: absolute_of(walked, base),
    }
}

/// The resolution once the components before `next` have led to `growing`:
/// finished when none is left; else a walk at `next`, which asks first
/// whether the extended path is a symlink where that path lies inside the root.
pub open spec fn sought(
    base: Seq<char>,
    parts: Seq<Seq<char>>,
    next: int,
    growing: Seq<char>,
) -> Outcome {
    if next >= parts.len() {
        finished(base, growing)
    } else {
        Outcome::Ask(
            WalkView {
                base,
                parts,
                next,
                growing,
                symlink_pending: begins_with(joined(growing, parts[next]), base),
            },
        )
    }
}

/// The resolution after an answer. A symlink inside the root ends the walk:
/// the components behind it are pushed onto it as they are. Anything else
/// is made canonical, or cleaned where it does not exist, and the walk goes
/// on from there; a failed lookup ends it. An answer to a question that the
/// walk did not ask changes nothing.
pub open spec fn stepped(w: WalkView, a: Answer) -> Outcome {
    match a {
        Answer::Symlink(is_link) => if !w.symlink_pending {
            Outcome::Ask(w)
        } else if is_link {
            finished(w.base, joined_all(extended_of(w), w.parts.skip(w.next + 1)))
        } else {
            Outcome::Ask(WalkView { symlink_pending: false, ..w })
        },
        Answer::Canonical(lookup) => if w.symlink_pending {
            Outcome::Ask(w)
        } else {
            match settled(extended_of(w), lookup) {
                Ok(growing) => sought(w.base, w.parts, w.next + 1, growing),
                Err(e) => Outcome::Failed(e),
            }
        },
    }
}

/// What a walk needs to know of the file system.
pub enum Probe {
    /// Is this path a symlink?
    IsSymlink(String),
    /// Does this path exist, and what is its canonical form?
    Canonicalize(String),
}

/// What the file system said.
pub enum Answer {
    /// Whether the path is a symlink.
    Symlink(bool),
    /// What became of the attempt to make the path canonical.
    Canonical(Lookup),
}

/// The resolution of a path, as far as it has come.
pub enum Resolution {
    /// The walk needs an answer to its probe.
    Ask(Walk),
    /// The path is resolved.
    Done(ScopedPath),
    /// A lookup failed.
    Failed(ErrorKind),
}

impl View for Resolution {
    type V = Outcome;

    open spec fn view(&self) -> Outcome {
        match self {
            Resolution::Ask(w) => Outcome::Ask(w@),
            Resolution::Done(p) => Outcome::Done {
                base: p.base(),
                inner: p.inner(),
                absolute: p.absolute(),
            },
            Resolution::Failed(e) => Outcome::Failed(*e),
        }
    }
}

/// A walk over the components of a path, waiting for an answer.
pub struct Walk {
    base: Rc<CanonicalPath>,
    parts: Vec<String>,
    next: usize,
    growing: String,
    extended: String,
    symlink_pending: bool,
}

impl View for Walk {
    type V = WalkView;

    closed spec fn view(&self) -> WalkView {
        WalkView {
            base: self.base@,
            parts: texts(self.parts@),
            next: self.next as int,
            growing: self.growing@,
            symlink_pending: self.symlink_pending,
        }
    }
}

fn seek(base: Rc<CanonicalPath>, parts: Vec<String>, next: usize, growing: String) -> (r:
    Resolution)
    requires
        next <= parts.len(),
    ensures
        r@ == sought(base@, texts(parts@), next as int, growing@),
{
    if next >= parts.len() {
        Resolution::Done(ScopedPath::scope(base, growing.as_str()))
    } else {
        let extended = join(growing.as_str(), parts[next].as_str());
        let symlink_pending = starts_with(extended.as_str(), base.as_str());
        Resolution::Ask(Walk { base, parts, next, growing, extended, symlink_pending })
    }
}

impl Walk {
    #[verifier::type_invariant]
    spec fn wf(&self) -> bool {
        &&& self.next < self.parts.len()
        &&& self.extended@ == joined(self.growing@, self.parts@[self.next as int]@)
    }

    /// What the walk needs to know next.
    pub fn probe(&self) -> (r: Probe)
        ensures
            0 <= self@.next < self@.parts.len(),
            match r {
                Probe::IsSymlink(p) => self@.symlink_pending && p@ == extended_of(self@),
                Probe::Canonicalize(p) => !self@.symlink_pending && p@ == extended_of(self@),
            },
    {
        proof {
            use_type_invariant(self);
        }
        if self.symlink_pending {
            Probe::IsSymlink(self.extended.clone())
        } else {
            Probe::Canonicalize(self.extended.clone())
        }
    }

    /// Goes on with the answer to the probe.
    pub fn answer(self, a: Answer) -> (r: Resolution)
        ensures
            r@ == stepped(self@, a),
    {
        proof {
            use_type_invariant(&self);
        }
        match a {
            Answer::Symlink(is_link) => {
                if !self.symlink_pending {
                    Resolution::Ask(self)
                } else if is_link {
                    let n = self.parts.len();
                    let walked = join_all(self.extended, &self.parts, self.next + 1, n);
                    assert(texts(self.parts@).subrange(self.next + 1, n as int) =~= texts(
                        self.parts@,
                    ).skip(self.next + 1));
                    Resolution::Done(ScopedPath::scope(self.base, walked.as_str()))
                } else {
                    Resolution::Ask(
                        Walk {
                            base: self.base,
                            parts: self.parts,
                            next: self.next,
                            growing: self.growing,
                            extended: self.extended,
                            symlink_pending: false,
                        },
                    )
                }
            },
            Answer::Canonical(lookup) => {
                if self.symlink_pending {
                    Resolution::Ask(self)
                } else {
                    match canonicalize_or_clean(self.extended.as_str(), lookup) {
                        Ok(growing) => seek(self.base, self.parts, self.next + 1, growing),
                        Err(e) => Resolution::Failed(e),
                    }
                }
            },
        }
    }
}

/// Two answers say the same.
pub open spec fn same_answer(a: Answer, b: Answer) -> bool {
    match (a, b) {
        (Answer::Symlink(x), Answer::Symlink(y)) => x == y,
        (Answer::Canonical(x), Answer::Canonical(y)) => match (x, y) {
            (Lookup::Found { path: p, is_dir: _ }, Lookup::Found { path: q, is_dir: _ }) => p@
                == q@,
            (Lookup::Missing, Lookup::Missing) => true,
            (Lookup::Failed(e), Lookup::Failed(f)) => e == f,
            _ => false,
        },
        _ => false,
    }
}

/// Where a resolution stands after a run of answers: each answer moves a
/// walk on, and a resolution that has ended stays as it is.
pub open spec fn resolved(start: Outcome, answers: Seq<Answer>) -> Outcome
    decreases answers.len(),
{
    if answers.len() == 0 {
        start
    } else {
        match resolved(start, answers.drop_last()) {
            Outcome::Ask(w) => stepped(w, answers.last()),
            ended => ended,
        }
    }
}

/// Resolving a path twice against the same root gives the same result,
/// where the file system gives the same answers both times.
pub proof fn law_same_answers_same_resolution(
    start: Outcome,
    first: Seq<Answer>,
    second: Seq<Answer>,
)
    requires
        first.len() == second.len(),
        forall|k: int| 0 <= k < first.len() ==> same_answer(#[trigger] first[k], second[k]),
    ensures
        resolved(start, first) == resolved(start, second),
    decreases first.len(),
{
    if first.len() > 0 {
        assert forall|k: int| 0 <= k < first.drop_last().len() implies same_answer(
            #[trigger] first.drop_last()[k],
            second.drop_last()[k],
        ) by {
            assert(first.drop_last()[k] == first[k]);
            assert(same_answer(first[k], second[k]));
        }
        law_same_answers_same_resolution(start, first.drop_last(), second.drop_last());
        assert(same_answer(first[first.len() - 1], second[first.len() - 1]));
    }
}

/// No component of the path is `..`, as in every canonical path.
pub open spec fn without_parent_dirs(p: Seq<char>) -> bool {
    forall|i: int| 0 <= i < components_of(p).len() ==> #[trigger] components_of(p)[i] != dotdot_text()
}

/// A path at or below the root is kept relative: `.` for the root itself,
/// else the components behind the root. Where the path holds no `..`, as a
/// canonical path does, what is kept does not begin with `..`.
pub proof fn law_inside_root_is_relative(abs: Seq<char>, base: Seq<char>)
    requires
        is_absolute(base),
        begins_with(abs, base),
    ensures
        !is_absolute(scoped_inner(abs, base)),
        components_of(abs).len() == components_of(base).len() ==> scoped_inner(abs, base)
            == dot_text(),
        components_of(abs).len() > components_of(base).len() ==> components_of(
            scoped_inner(abs, base),
        ) == components_of(abs).skip(components_of(base).len() as int),
        components_of(scoped_inner(abs, base)).len() > 0,
        without_parent_dirs(abs) ==> components_of(scoped_inner(abs, base))[0] != dotdot_text(),
{
    lemma_component_facts(abs);
    lemma_component_facts(base);
    let k = components_of(base).len() as int;
    let rest = components_of(abs).skip(k);
    assert(k >= 1);
    if rest.len() == 0 {
        assert(joined_all(Seq::empty(), rest) == Seq::<char>::empty());
        let d = dot_text();
        assert(d.drop_last() =~= Seq::<char>::empty());
        assert(scan(d.drop_last()) == (Seq::<Seq<char>>::empty(), Seq::<char>::empty()));
        assert(scan(d).1 =~= d);
        assert(components_of(d) =~= seq![d]);
        assert(dot_text() != dotdot_text()) by {
            assert(dot_text().len() != dotdot_text().len());
        }
    } else {
        assert forall|i: int| 0 <= i < rest.len() implies is_segment(#[trigger] rest[i]) && rest[i]
            != dot_text() by {
            assert(rest[i] == components_of(abs)[i + k]);
        }
        lemma_components_of_joined(rest);
        assert(rest[0] == components_of(abs)[k]);
    }
}

/// The name of the directory that holds a database below the root.
pub const DATABASE_DIR: &'static str = ".tmsu";

/// The root that belongs to a database at `db_path`: the directory above
/// the database's directory where that is named `.tmsu`, else the
/// database's directory itself; none where the database's directory has no
/// name.
pub open spec fn root_of(db_path: Seq<char>) -> Option<Seq<char>> {
    let cs = components_of(db_path);
    let n = cs.len() as int;
    if n < 2 || !is_name(cs[n - 2]) {
        None
    } else if cs[n - 2] == DATABASE_DIR@ {
        Some(joined_all(Seq::empty(), cs.take(n - 2)))
    } else {
        Some(joined_all(Seq::empty(), cs.take(n - 1)))
    }
}

/// The root directory that belongs to the database at `db_path`; `NoRoot`
/// where there is none.
pub fn determine_root_path(db_path: &str) -> (r: Result<String, ErrorKind>)
    ensures
        match root_of(db_path@) {
            Some(root) => r.is_ok() && r.unwrap()@ == root,
            None => r.is_err() && r.unwrap_err() == ErrorKind::NoRoot,
        },
{
    let cs = components(db_path);
    let n = cs.len();
    if n < 2 || !names_entry(cs[n - 2].as_str()) {
        return Err(ErrorKind::NoRoot);
    }
    let upto = if same_text(cs[n - 2].as_str(), DATABASE_DIR) {
        n - 2
    } else {
        n - 1
    };
    assert(texts(cs@).subrange(0, upto as int) =~= texts(cs@).take(upto as int));
    Ok(join_all(String::new(), &cs, 0, upto))
}

/// Whether a directory holds the root, for the root scoped to that
/// directory as its base: it does where the root is kept relative.
pub fn path_contains_root(scoped: &ScopedPath) -> (r: bool)
    ensures
        r == !is_absolute(scoped.inner()),
{
    !is_absolute_path(scoped.inner_str())
}

/// A symlink inside the root keeps its name: where the walk learns that the
/// path it asks about is a symlink, the path is resolved, its components are
/// those of the symlink's path and then the components that were still to
/// come, as they are, and it is kept relative to the root.
pub proof fn law_symlink_inside_root_keeps_its_name(w: WalkView, path: Seq<char>)
    requires
        is_absolute(w.base),
        w.parts == components_of(path),
        0 <= w.next < w.parts.len(),
        w.symlink_pending,
        begins_with(extended_of(w), w.base),
    ensures
        stepped(w, Answer::Symlink(true)) matches Outcome::Done { base, inner, absolute }
            && base == w.base && absolute == joined_all(
            extended_of(w),
            w.parts.skip(w.next + 1),
        ) && components_of(absolute) == components_of(extended_of(w)) + w.parts.skip(w.next + 1)
            && begins_with(absolute, w.base) && !is_absolute(inner) && (components_of(
            absolute,
        ).len() > components_of(w.base).len() ==> components_of(inner) == components_of(
            absolute,
        ).skip(components_of(w.base).len() as int)),
{
    let ext = extended_of(w);
    let rest = w.parts.skip(w.next + 1);
    let walked = joined_all(ext, rest);
    lemma_component_facts(path);
    lemma_component_facts(w.base);
    lemma_component_facts(ext);
    assert(components_of(ext)[0] == components_of(w.base)[0]);
    assert(root_text()[0] == '/');
    assert(is_absolute(ext));
    assert forall|i: int| 0 <= i < rest.len() implies is_segment(#[trigger] rest[i]) && rest[i]
        != dot_text() by {
        assert(rest[i] == w.parts[i + w.next + 1]);
    }
    lemma_components_of_pushed_all(ext, rest);
    lemma_component_facts(walked);
    assert(components_of(walked)[0] == components_of(ext)[0]);
    assert(is_absolute(walked));
    law_inside_root_is_relative(walked, w.base);
}

} // verus!
