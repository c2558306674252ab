//! The Registry and Merge Engine: the authoritative mapping from component
//! name to its owning file and document text, with bulk load and
//! incremental watch-event updates.
//!
//! Invariant: every name present is owned by exactly one source path, and
//! that name is the one the path itself carries.

use vstd::prelude::*;
use crate::json::{json_norm, json_wf, normalize_json};
use crate::name::{extract_name, name_of};
use crate::render::{entries_text, escape_into, lemma_entries_push, push_char, render_spec};

verus! {

/// One live component: its name, the path that owns it, and the canonical
/// text of its JSON document.
pub struct Record {
    pub name: String,
    pub source_path: String,
    pub contents: String,
}

/// Mathematical image of a record.
#[verifier::ext_equal]
pub ghost struct RecordView {
    pub name: Seq<char>,
    pub path: Seq<char>,
    pub contents: Seq<char>,
}

impl View for Record {
    type V = RecordView;

    open spec fn view(&self) -> RecordView {
        RecordView { name: self.name@, path: self.source_path@, contents: self.contents@ }
    }
}

/// A file handed to the bulk load: its path and its raw text.
pub struct SourceFile {
    pub path: String,
    pub text: String,
}

#[verifier::ext_equal]
pub ghost struct SourceFileView {
    pub path: Seq<char>,
    pub text: Seq<char>,
}

impl View for SourceFile {
    type V = SourceFileView;

    open spec fn view(&self) -> SourceFileView {
        SourceFileView { path: self.path@, text: self.text@ }
    }
}

pub open spec fn files_view(files: Seq<SourceFile>) -> Seq<SourceFileView> {
    files.map_values(|f: SourceFile| f@)
}

/// Why a bulk load failed.
pub enum LoadError {
    /// A label file's text is not well-formed JSON.
    InvalidJson { path: String },
    /// Two distinct paths map to the same component name; the newly seen
    /// path comes first, the previously registered one second.
    Duplicate { component: String, new_path: String, existing_path: String },
}

#[verifier::ext_equal]
pub ghost enum LoadErrorView {
    InvalidJson { path: Seq<char> },
    Duplicate { component: Seq<char>, new_path: Seq<char>, existing_path: Seq<char> },
}

impl View for LoadError {
    type V = LoadErrorView;

    open spec fn view(&self) -> LoadErrorView {
        match self {
            LoadError::InvalidJson { path } => LoadErrorView::InvalidJson { path: path@ },
            LoadError::Duplicate { component, new_path, existing_path } => LoadErrorView::Duplicate {
                component: component@,
                new_path: new_path@,
                existing_path: existing_path@,
            },
        }
    }
}

/// A filesystem change, as the watch loop reports it.
pub enum FileEvent {
    /// A file appeared; `text` is its content, or `None` where it could
    /// not be read.
    Created { path: String, text: Option<String> },
    /// A file changed; `text` as for `Created`.
    Modified { path: String, text: Option<String> },
    /// A file disappeared.
    Removed { path: String },
    /// A file moved; `text` is the content under the new path.
    Renamed { old_path: String, new_path: String, text: Option<String> },
}

#[verifier::ext_equal]
pub ghost enum FileEventView {
    Upsert { path: Seq<char>, text: Option<Seq<char>> },
    Remove { path: Seq<char> },
    Rename { old_path: Seq<char>, new_path: Seq<char>, text: Option<Seq<char>> },
}

pub open spec fn opt_text_view(t: Option<String>) -> Option<Seq<char>> {
    match t {
        Some(s) => Some(s@),
        None => None,
    }
}

pub open spec fn opt_ref_view(t: Option<&String>) -> Option<Seq<char>> {
    match t {
        Some(s) => Some(s@),
        None => None,
    }
}

impl View for FileEvent {
    type V = FileEventView;

    open spec fn view(&self) -> FileEventView {
        match self {
            FileEvent::Created { path, text } => FileEventView::Upsert {
                path: path@,
                text: opt_text_view(*text),
            },
            FileEvent::Modified { path, text } => FileEventView::Upsert {
                path: path@,
                text: opt_text_view(*text),
            },
            FileEvent::Removed { path } => FileEventView::Remove { path: path@ },
            FileEvent::Renamed { old_path, new_path, text } => FileEventView::Rename {
                old_path: old_path@,
                new_path: new_path@,
                text: opt_text_view(*text),
            },
        }
    }
}

/// What applying one event did. Output must be re-written exactly when the
/// outcome is `Applied`.
#[derive(Clone, Copy, Debug, PartialEq, Eq, Structural)]
pub enum ApplyOutcome {
    /// The registry changed: a record was inserted, replaced or removed.
    Applied,
    /// A remove of a path that owns nothing.
    NoChange,
    /// The event's text is not well-formed JSON; the event is dropped.
    InvalidJson,
    /// The name is owned by a different path; the event is dropped and the
    /// current owner kept.
    Conflict,
    /// The file could not be read; the event is dropped.
    Unreadable,
    /// The path is not a label file.
    Ignored,
}

pub open spec fn has_name(v: Seq<RecordView>, n: Seq<char>) -> bool {
    exists|i: int| 0 <= i < v.len() && v[i].name == n
}

pub open spec fn name_index(v: Seq<RecordView>, n: Seq<char>) -> int {
    choose|i: int| 0 <= i < v.len() && v[i].name == n
}

pub open spec fn has_path(v: Seq<RecordView>, p: Seq<char>) -> bool {
    exists|i: int| 0 <= i < v.len() && v[i].path == p
}

pub open spec fn path_index(v: Seq<RecordView>, p: Seq<char>) -> int {
    choose|i: int| 0 <= i < v.len() && v[i].path == p
}

/// The aggregate document: component name to canonical document text.
pub open spec fn aggregate(v: Seq<RecordView>) -> Map<Seq<char>, Seq<char>> {
    Map::new(|n: Seq<char>| has_name(v, n), |n: Seq<char>| v[name_index(v, n)].contents)
}

/// Registry well-formedness: every record's name is the one its own path
/// carries, and no two records share a name.
pub open spec fn wf_seq(v: Seq<RecordView>) -> bool {
    &&& forall|i: int| 0 <= i < v.len() ==> name_of((#[trigger] v[i]).path) == Some(v[i].name)
    &&& forall|i: int, j: int|
        0 <= i < v.len() && 0 <= j < v.len() && i != j ==> (#[trigger] v[i]).name != (
        #[trigger] v[j]).name
}

/// Insert, or replace in place, the record for name `n`.
pub open spec fn upsert1(v: Seq<RecordView>, n: Seq<char>, p: Seq<char>, c: Seq<char>) -> Seq<
    RecordView,
> {
    if has_name(v, n) {
        v.update(name_index(v, n), RecordView { name: n, path: p, contents: c })
    } else {
        v.push(RecordView { name: n, path: p, contents: c })
    }
}

/// Outcome of one created/modified event: unreadable text and text that is
/// not JSON are dropped, a path that is not a label file is ignored, a
/// name owned by a different path keeps its current owner; otherwise the
/// event applies.
pub open spec fn upsert_outcome(
    v: Seq<RecordView>,
    path: Seq<char>,
    text: Option<Seq<char>>,
) -> ApplyOutcome {
    match text {
        None => ApplyOutcome::Unreadable,
        Some(t) => if !json_wf(t) {
            ApplyOutcome::InvalidJson
        } else {
            match name_of(path) {
                None => ApplyOutcome::Ignored,
                Some(n) => if has_name(v, n) && v[name_index(v, n)].path != path {
                    ApplyOutcome::Conflict
                } else {
                    ApplyOutcome::Applied
                },
            }
        },
    }
}

pub open spec fn upsert_result(
    v: Seq<RecordView>,
    path: Seq<char>,
    text: Option<Seq<char>>,
) -> Seq<RecordView> {
    if upsert_outcome(v, path, text) == ApplyOutcome::Applied {
        upsert1(v, name_of(path)->Some_0, path, json_norm(text->Some_0))
    } else {
        v
    }
}

pub open spec fn remove_outcome(v: Seq<RecordView>, path: Seq<char>) -> ApplyOutcome {
    if has_path(v, path) {
        ApplyOutcome::Applied
    } else {
        ApplyOutcome::NoChange
    }
}

pub open spec fn remove_result(v: Seq<RecordView>, path: Seq<char>) -> Seq<RecordView> {
    if has_path(v, path) {
        v.remove(path_index(v, path))
    } else {
        v
    }
}

/// State after one watch event; a rename is a remove of the old path
/// followed by a create at the new one.
pub open spec fn event_result(v: Seq<RecordView>, ev: FileEventView) -> Seq<RecordView> {
    match ev {
        FileEventView::Upsert { path, text } => upsert_result(v, path, text),
        FileEventView::Remove { path } => remove_result(v, path),
        FileEventView::Rename { old_path, new_path, text } => upsert_result(
            remove_result(v, old_path),
            new_path,
            text,
        ),
    }
}

pub open spec fn event_outcome(v: Seq<RecordView>, ev: FileEventView) -> ApplyOutcome {
    match ev {
        FileEventView::Upsert { path, text } => upsert_outcome(v, path, text),
        FileEventView::Remove { path } => remove_outcome(v, path),
        FileEventView::Rename { old_path, new_path, text } => if remove_outcome(v, old_path)
            == ApplyOutcome::Applied {
            ApplyOutcome::Applied
        } else {
            upsert_outcome(remove_result(v, old_path), new_path, text)
        },
    }
}

/// State and error of a bulk load after its files are taken in order.
#[verifier::ext_equal]
pub ghost struct LoadSpec {
    pub state: Seq<RecordView>,
    pub error: Option<LoadErrorView>,
}

/// Bulk load, file by file in enumeration order: a path that is not a
/// label file is skipped; text that is not JSON is fatal; a name owned by
/// a different path is fatal; otherwise the record is inserted or, for the
/// same path, replaced. On failure the state already built stands, and
/// nothing past the failing file is taken.
pub open spec fn load_spec(v: Seq<RecordView>, files: Seq<SourceFileView>) -> LoadSpec
    decreases files.len(),
{
    if files.len() == 0 {
        LoadSpec { state: v, error: None }
    } else {
        let f = files[0];
        match name_of(f.path) {
            None => load_spec(v, files.drop_first()),
            Some(n) => if !json_wf(f.text) {
                LoadSpec { state: v, error: Some(LoadErrorView::InvalidJson { path: f.path }) }
            } else if has_name(v, n) && v[name_index(v, n)].path != f.path {
                LoadSpec {
                    state: v,
                    error: Some(
                        LoadErrorView::Duplicate {
                            component: n,
                            new_path: f.path,
                            existing_path: v[name_index(v, n)].path,
                        },
                    ),
                }
            } else {
                load_spec(upsert1(v, n, f.path, json_norm(f.text)), files.drop_first())
            },
        }
    }
}

/// The registry: the single authoritative set of live component records.
pub struct Registry {
    records: Vec<Record>,
}

impl View for Registry {
    type V = Seq<RecordView>;

    closed spec fn view(&self) -> Seq<RecordView> {
        self.records@.map_values(|r: Record| r@)
    }
}

impl Registry {
    /// Registry well-formedness: constructors establish it, every method
    /// keeps it.
    pub open spec fn inv(&self) -> bool {
        wf_seq(self@)
    }

    pub fn new() -> (r: Registry)
        ensures
            r@ == Seq::<RecordView>::empty(),
            r.inv(),
    {
        let r = Registry { records: Vec::new() };
        proof {
            assert(r@ =~= Seq::<RecordView>::empty());
        }
        r
    }

    pub fn len(&self) -> (r: usize)
        ensures
            r == self@.len(),
    {
        self.records.len()
    }

    /// Index of the record named `n`, if any.
    fn find_name(&self, n: &String) -> (r: Option<usize>)
        ensures
            match r {
                Some(i) => i < self@.len() && self@[i as int].name == n@,
                None => !has_name(self@, n@),
            },
    {
        let mut i: usize = 0;
        while i < self.records.len()
            invariant
                i <= self@.len(),
                self@.len() == self.records@.len(),
                forall|k: int| 0 <= k < i ==> (#[trigger] self@[k]).name != n@,
            decreases self@.len() - i,
        {
            if self.records[i].name == *n {
                return Some(i);
            }
            i += 1;
        }
        None
    }

    /// Index of the record owned by `p`, if any.
    fn find_path(&self, p: &String) -> (r: Option<usize>)
        ensures
            match r {
                Some(i) => i < self@.len() && self@[i as int].path == p@,
                None => !has_path(self@, p@),
            },
    {
        let mut i: usize = 0;
        while i < self.records.len()
            invariant
                i <= self@.len(),
                self@.len() == self.records@.len(),
                forall|k: int| 0 <= k < i ==> (#[trigger] self@[k]).path != p@,
            decreases self@.len() - i,
        {
            if self.records[i].source_path == *p {
                return Some(i);
            }
            i += 1;
        }
        None
    }

    /// The document text registered for component `name`.
    pub fn contents_of(&self, name: &String) -> (r: Option<&String>)
        requires
            self.inv(),
        ensures
            match r {
                Some(c) => has_name(self@, name@) && c@ == aggregate(self@)[name@],
                None => !has_name(self@, name@),
            },
    {
        match self.find_name(name) {
            Some(i) => {
                proof {
                    let v = self@;
                    assert(v[name_index(v, name@)].name == name@);
                    assert(name_index(v, name@) == i as int);
                }
                Some(&self.records[i].contents)
            },
            None => None,
        }
    }

    /// The source path that currently owns component `name`.
    pub fn owner_of(&self, name: &String) -> (r: Option<&String>)
        requires
            self.inv(),
        ensures
            match r {
                Some(p) => has_name(self@, name@) && p@ == self@[name_index(self@, name@)].path,
                None => !has_name(self@, name@),
            },
    {
        match self.find_name(name) {
            Some(i) => {
                proof {
                    let v = self@;
                    assert(v[name_index(v, name@)].name == name@);
                    assert(name_index(v, name@) == i as int);
                }
                Some(&self.records[i].source_path)
            },
            None => None,
        }
    }

    /// Insert, or replace in place, the record for name `n`; the caller has
    /// ruled a conflicting owner out.
    fn put(&mut self, n: String, path: &String, contents: String)
        requires
            old(self).inv(),
            name_of(path@) == Some(n@),
            has_name(old(self)@, n@) ==> old(self)@[name_index(old(self)@, n@)].path == path@,
        ensures
            final(self).inv(),
            final(self)@ == upsert1(old(self)@, n@, path@, contents@),
    {
        let rec = Record { name: n, source_path: path.clone(), contents };
        let ghost rv = rec@;
        let ghost v0 = self@;
        match self.find_name(&rec.name) {
            Some(i) => {
                proof {
                    assert(v0[name_index(v0, rv.name)].name == rv.name);
                    assert(name_index(v0, rv.name) == i as int);
                }
                self.records.remove(i);
                self.records.insert(i, rec);
                proof {
                    assert(self@ =~= v0.update(i as int, rv));
                }
            },
            None => {
                self.records.push(rec);
                proof {
                    assert(self@ =~= v0.push(rv));
                }
            },
        }
    }

    /// Bulk load: register each file, in enumeration order. A path that is
    /// not a label file is skipped; text that is not JSON, or a name
    /// already owned by a different path, fails the whole load, keeping
    /// the records already registered and taking nothing further.
    pub fn load_all(&mut self, files: &Vec<SourceFile>) -> (r: Result<(), LoadError>)
        requires
            old(self).inv(),
        ensures
            final(self).inv(),
            final(self)@ == load_spec(old(self)@, files_view(files@)).state,
            match r {
                Ok(()) => load_spec(old(self)@, files_view(files@)).error is None,
                Err(e) => load_spec(old(self)@, files_view(files@)).error == Some(e@),
            },
    {
        let ghost fs = files_view(files@);
        let ghost v0 = self@;
        proof {
            assert(fs.skip(0int) =~= fs);
        }
        let mut idx: usize = 0;
        while idx < files.len()
            invariant
                self.inv(),
                idx <= files.len(),
                files@.len() == fs.len(),
                fs == files_view(files@),
                v0 == old(self)@,
                load_spec(v0, fs) == load_spec(self@, fs.skip(idx as int)),
            decreases files.len() - idx,
        {
            let ghost rest = fs.skip(idx as int);
            proof {
                assert(rest[0] == files@[idx as int]@);
                assert(rest.drop_first() =~= fs.skip(idx as int + 1));
            }
            let f = &files[idx];
            match extract_name(f.path.as_str()) {
                None => {
                    idx += 1;
                },
                Some(n) => {
                    match normalize_json(f.text.as_str()) {
                        None => {
                            proof {
                                assert(load_spec(self@, rest) == LoadSpec {
                                    state: self@,
                                    error: Some(LoadErrorView::InvalidJson { path: rest[0].path }),
                                });
                            }
                            return Err(LoadError::InvalidJson { path: f.path.clone() });
                        },
                        Some(norm) => {
                            let conflict: Option<String> = match self.find_name(&n) {
                                Some(i) => {
                                    if self.records[i].source_path == f.path {
                                        None
                                    } else {
                                        proof {
                                            let v = self@;
                                            assert(v[name_index(v, n@)].name == n@);
                                            assert(name_index(v, n@) == i as int);
                                        }
                                        Some(self.records[i].source_path.clone())
                                    }
                                },
                                None => None,
                            };
                            match conflict {
                                Some(existing) => {
                                    return Err(
                                        LoadError::Duplicate {
                                            component: n,
                                            new_path: f.path.clone(),
                                            existing_path: existing,
                                        },
                                    );
                                },
                                None => {
                                    proof {
                                        let v = self@;
                                        if has_name(v, n@) {
                                            assert(v[name_index(v, n@)].name == n@);
                                        }
                                    }
                                    self.put(n, &f.path, norm);
                                    idx += 1;
                                },
                            }
                        },
                    }
                },
            }
        }
        proof {
            assert(fs.skip(files@.len() as int) =~= Seq::<SourceFileView>::empty());
        }
        Ok(())
    }

    /// Apply one created/modified event: register or refresh the component
    /// named by `path`, unless the event must be dropped. The registry
    /// changes exactly when the outcome is `Applied`.
    pub fn apply_upsert(&mut self, path: &String, text: Option<&String>) -> (r: ApplyOutcome)
        requires
            old(self).inv(),
        ensures
            final(self).inv(),
            r == upsert_outcome(old(self)@, path@, opt_ref_view(text)),
            final(self)@ == upsert_result(old(self)@, path@, opt_ref_view(text)),
            r != ApplyOutcome::Applied ==> final(self)@ == old(self)@,
    {
        let t = match text {
            Some(t) => t,
            None => {
                return ApplyOutcome::Unreadable;
            },
        };
        let norm = match normalize_json(t.as_str()) {
            Some(nm) => nm,
            None => {
                return ApplyOutcome::InvalidJson;
            },
        };
        let n = match extract_name(path.as_str()) {
            Some(n) => n,
            None => {
                return ApplyOutcome::Ignored;
            },
        };
        let conflicting = match self.find_name(&n) {
            Some(i) => {
                proof {
                    let v = self@;
                    assert(v[name_index(v, n@)].name == n@);
                    assert(name_index(v, n@) == i as int);
                }
                !(self.records[i].source_path == *path)
            },
            None => false,
        };
        if conflicting {
            ApplyOutcome::Conflict
        } else {
            self.put(n, path, norm);
            ApplyOutcome::Applied
        }
    }

    /// Apply one removed event: drop the record owned by `path`, if any.
    pub fn apply_remove(&mut self, path: &String) -> (r: ApplyOutcome)
        requires
            old(self).inv(),
        ensures
            final(self).inv(),
            r == remove_outcome(old(self)@, path@),
            final(self)@ == remove_result(old(self)@, path@),
    {
        let ghost v0 = self@;
        match self.find_path(path) {
            Some(i) => {
                proof {
                    assert(v0[path_index(v0, path@)].path == path@);
                    let j = path_index(v0, path@);
                    assert(name_of(v0[j].path) == Some(v0[j].name));
                    assert(name_of(v0[i as int].path) == Some(v0[i as int].name));
                    assert(v0[j].name == v0[i as int].name);
                    assert(j == i as int);
                }
                self.records.remove(i);
                proof {
                    assert(self@ =~= v0.remove(i as int));
                }
                ApplyOutcome::Applied
            },
            None => ApplyOutcome::NoChange,
        }
    }

    /// Apply one renamed event: a remove of the old path, then a create at
    /// the new one.
    pub fn apply_rename(&mut self, old_path: &String, new_path: &String, text: Option<&String>) -> (r:
        ApplyOutcome)
        requires
            old(self).inv(),
        ensures
            final(self).inv(),
            r == event_outcome(
                old(self)@,
                FileEventView::Rename {
                    old_path: old_path@,
                    new_path: new_path@,
                    text: opt_ref_view(text),
                },
            ),
            final(self)@ == event_result(
                old(self)@,
                FileEventView::Rename {
                    old_path: old_path@,
                    new_path: new_path@,
                    text: opt_ref_view(text),
                },
            ),
    {
        let removed = self.apply_remove(old_path);
        let upserted = self.apply_upsert(new_path, text);
        if removed == ApplyOutcome::Applied {
            ApplyOutcome::Applied
        } else {
            upserted
        }
    }

    /// The watch-loop step: apply one filesystem event. The caller must
    /// re-write the aggregate exactly when the outcome is `Applied`.
    pub fn handle_event(&mut self, ev: &FileEvent) -> (r: ApplyOutcome)
        requires
            old(self).inv(),
        ensures
            final(self).inv(),
            r == event_outcome(old(self)@, ev@),
            final(self)@ == event_result(old(self)@, ev@),
    {
        match ev {
            FileEvent::Created { path, text } => self.apply_upsert(
                path,
                match text {
                    Some(t) => Some(t),
                    None => None,
                },
            ),
            FileEvent::Modified { path, text } => self.apply_upsert(
                path,
                match text {
                    Some(t) => Some(t),
                    None => None,
                },
            ),
            FileEvent::Removed { path } => self.apply_remove(path),
            FileEvent::Renamed { old_path, new_path, text } => self.apply_rename(
                old_path,
                new_path,
                match text {
                    Some(t) => Some(t),
                    None => None,
                },
            ),
        }
    }

    /// Serialize the aggregate document: one JSON object with a key per
    /// component, in registration order.
    pub fn snapshot(&self) -> (r: String)
        ensures
            r@ == render_spec(self@),
    {
        let mut out = String::new();
        push_char(&mut out, '{');
        proof {
            assert(self@.take(0int) =~= Seq::<RecordView>::empty());
            assert(out@ =~= seq!['{'] + entries_text(self@.take(0int)));
        }
        let mut i: usize = 0;
        while i < self.records.len()
            invariant
                self@.len() == self.records@.len(),
                i <= self@.len(),
                out@ == seq!['{'] + entries_text(self@.take(i as int)),
            decreases self@.len() - i,
        {
            if i > 0 {
                push_char(&mut out, ',');
            }
            push_char(&mut out, '"');
            escape_into(&mut out, &self.records[i].name);
            push_char(&mut out, '"');
            push_char(&mut out, ':');
            out.append(self.records[i].contents.as_str());
            proof {
                lemma_entries_push(self@.take(i as int), self@[i as int]);
                assert(self@.take(i as int + 1) =~= self@.take(i as int).push(self@[i as int]));
                assert(out@ =~= seq!['{'] + entries_text(self@.take(i as int + 1)));
            }
            i += 1;
        }
        push_char(&mut out, '}');
        proof {
            assert(self@.take(self@.len() as int) =~= self@);
            assert(out@ =~= render_spec(self@));
        }
        out
    }
}

} // verus!
