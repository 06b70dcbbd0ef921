//! The declaration scanner: one forward pass over a file's lines that
//! captures its storage block and its event declarations.
use vstd::prelude::*;
use vstd::string::*;

use crate::error::{error_view, ErrorView, ParserError};
use crate::event::{args_view, parse_signature, signature_error, CairoEvent};
use crate::naming::{file_stem, unit_name, unit_name_of};
use crate::text::{
    chars_of, contains, contains_exec, find, find_exec, lemma_find_bounds, trim, trim_exec,
};
use crate::types::{failing_token, resolve, CairoType};

verus! {

/// The name of a storage field.
#[derive(Debug, PartialEq, Eq, Hash)]
pub struct Identifier(pub String);

/// The fields of a storage block, in source order.
#[derive(Debug, PartialEq, Eq)]
pub struct CairoStorage {
    pub fields: Vec<(Identifier, CairoType)>,
}

/// What became of a file's storage block.
#[derive(Debug, PartialEq, Eq)]
pub enum StorageOutcome {
    /// No storage block was opened.
    Absent,
    /// The block was closed; its fields.
    Closed(CairoStorage),
    /// The block was still open when the file ended, and was abandoned.
    Unclosed,
}

/// The abstract value of a storage outcome.
pub enum StorageView {
    Absent,
    Closed(Seq<(Seq<char>, CairoType)>),
    Unclosed,
}

/// The abstract value of an event: its name, its arguments, its line.
pub type EventView = (Seq<char>, Seq<(Seq<char>, CairoType)>, int);

pub open spec fn fields_view(v: Seq<(Identifier, CairoType)>) -> Seq<(Seq<char>, CairoType)> {
    v.map_values(|f: (Identifier, CairoType)| (f.0.0@, f.1))
}

pub open spec fn storage_view(s: StorageOutcome) -> StorageView {
    match s {
        StorageOutcome::Absent => StorageView::Absent,
        StorageOutcome::Closed(st) => StorageView::Closed(fields_view(st.fields@)),
        StorageOutcome::Unclosed => StorageView::Unclosed,
    }
}

pub open spec fn event_view(e: CairoEvent) -> EventView {
    (e.name@, args_view(e.arguments@), e.definition_at as int)
}

pub open spec fn events_view(v: Seq<CairoEvent>) -> Seq<EventView> {
    v.map_values(|e: CairoEvent| event_view(e))
}

pub open spec fn lines_view(v: Seq<String>) -> Seq<Seq<char>> {
    v.map_values(|s: String| s@)
}

/// The marker of the line that opens a storage block.
pub open spec fn storage_marker() -> Seq<char> {
    "struct Storage"@
}

/// The marker of the line before an event signature.
pub open spec fn event_marker() -> Seq<char> {
    "#[event]"@
}

/// The character that closes a storage block.
pub open spec fn block_close() -> Seq<char> {
    "}"@
}

/// A field's type token: the text after its colon, trimmed, without one
/// trailing comma.
pub open spec fn field_type_token(rest: Seq<char>) -> Seq<char> {
    let t = trim(rest);
    if t.len() > 0 && t.last() == ',' {
        t.drop_last()
    } else {
        t
    }
}

/// The field of a storage line `name: Type,`, split at its first colon.
pub open spec fn parse_field(line: Seq<char>) -> Option<(Seq<char>, CairoType)> {
    match find(line, seq![':']) {
        Some(k) => match resolve(field_type_token(line.subrange(k + 1, line.len() as int))) {
            Some(t) => Some((trim(line.subrange(0, k)), t)),
            None => None,
        },
        None => None,
    }
}

/// The fields of a storage block's lines: one per line with a colon, lines
/// without one being skipped; `None` where a field's type does not resolve.
pub open spec fn parse_storage(lines: Seq<Seq<char>>) -> Option<Seq<(Seq<char>, CairoType)>>
    decreases lines.len(),
{
    if lines.len() == 0 {
        Some(Seq::empty())
    } else {
        match parse_storage(lines.drop_last()) {
            Some(fields) => if !contains(lines.last(), seq![':']) {
                Some(fields)
            } else {
                match parse_field(lines.last()) {
                    Some(f) => Some(fields.push(f)),
                    None => None,
                }
            },
            None => None,
        }
    }
}

/// The error of a storage line with a colon whose field does not parse: it
/// names the type token that fails.
pub open spec fn field_error(line: Seq<char>) -> ErrorView {
    match find(line, seq![':']) {
        Some(k) => ErrorView::UnknownType(
            failing_token(field_type_token(line.subrange(k + 1, line.len() as int))),
        ),
        None => ErrorView::UnknownType(line),
    }
}

/// The error of the first storage line whose field does not parse.
pub open spec fn storage_error(lines: Seq<Seq<char>>) -> ErrorView
    decreases lines.len(),
{
    if lines.len() == 0 {
        ErrorView::UnknownType(Seq::empty())
    } else if parse_storage(lines.drop_last()) is None {
        storage_error(lines.drop_last())
    } else {
        field_error(lines.last())
    }
}

/// The first line at or after `i` that closes a storage block.
pub open spec fn close_from(lines: Seq<Seq<char>>, i: int) -> Option<int>
    decreases lines.len() - i,
{
    if i < 0 || i >= lines.len() {
        None
    } else if contains(lines[i], block_close()) {
        Some(i)
    } else {
        close_from(lines, i + 1)
    }
}

/// The storage state after line `i`, and the line the scan goes on from.
/// A storage marker while no block was opened captures up to the closing
/// line (or, where none comes, abandons the block and skips to the end).
/// `None` where the captured block does not parse.
pub open spec fn storage_step(lines: Seq<Seq<char>>, i: int, storage: StorageView) -> Option<
    (StorageView, int),
> {
    if contains(lines[i], storage_marker()) && storage is Absent {
        match close_from(lines, i + 1) {
            None => Some((StorageView::Unclosed, lines.len() as int)),
            Some(c) => match parse_storage(lines.subrange(i + 1, c)) {
                Some(f) => Some((StorageView::Closed(f), c + 1)),
                None => None,
            },
        }
    } else {
        Some((storage, i + 1))
    }
}

/// The scan from line `i` on, given the storage state and the events so far.
/// After the storage step, an event marker on line `i` takes the next line
/// `p` as its signature, declared at the 1-based line `p + 1`; a marker with
/// no next line is dropped. `None` where the file does not parse.
pub open spec fn scan_from(
    lines: Seq<Seq<char>>,
    i: int,
    storage: StorageView,
    events: Seq<EventView>,
) -> Option<(StorageView, Seq<EventView>)>
    decreases lines.len() - i,
    via scan_from_decreases
{
    if i < 0 || i >= lines.len() {
        Some((storage, events))
    } else {
        match storage_step(lines, i, storage) {
            None => None,
            Some((st, p)) => if contains(lines[i], event_marker()) {
                if p < lines.len() {
                    match parse_signature(lines[p]) {
                        Some((name, args)) => scan_from(
                            lines,
                            p + 1,
                            st,
                            events.push((name, args, p + 1)),
                        ),
                        None => None,
                    }
                } else {
                    Some((st, events))
                }
            } else {
                scan_from(lines, p, st, events)
            },
        }
    }
}

pub proof fn lemma_close_from_bounds(lines: Seq<Seq<char>>, i: int)
    ensures
        match close_from(lines, i) {
            Some(c) => i <= c < lines.len(),
            None => true,
        },
    decreases lines.len() - i,
{
    if !(i < 0 || i >= lines.len()) && !contains(lines[i], block_close()) {
        lemma_close_from_bounds(lines, i + 1);
    }
}

#[via_fn]
proof fn scan_from_decreases(
    lines: Seq<Seq<char>>,
    i: int,
    storage: StorageView,
    events: Seq<EventView>,
) {
    lemma_close_from_bounds(lines, i + 1);
}

/// The error that stops a scan from line `i` on, where it fails: that of the
/// captured storage block, or that of the first signature that does not parse.
pub open spec fn scan_error_from(lines: Seq<Seq<char>>, i: int, storage: StorageView) -> ErrorView
    decreases lines.len() - i,
    via scan_error_from_decreases
{
    if i < 0 || i >= lines.len() {
        ErrorView::UnknownType(Seq::empty())
    } else {
        match storage_step(lines, i, storage) {
            None => storage_error(lines.subrange(i + 1, close_from(lines, i + 1).unwrap())),
            Some((st, p)) => if contains(lines[i], event_marker()) {
                if p < lines.len() {
                    match parse_signature(lines[p]) {
                        Some(_) => scan_error_from(lines, p + 1, st),
                        None => signature_error(lines[p]),
                    }
                } else {
                    ErrorView::UnknownType(Seq::empty())
                }
            } else {
                scan_error_from(lines, p, st)
            },
        }
    }
}

#[via_fn]
proof fn scan_error_from_decreases(lines: Seq<Seq<char>>, i: int, storage: StorageView) {
    lemma_close_from_bounds(lines, i + 1);
}

/// The error of a file whose scan fails.
pub open spec fn scan_error(lines: Seq<Seq<char>>) -> ErrorView {
    scan_error_from(lines, 0, StorageView::Absent)
}

/// What the scan of a whole file gives: its storage outcome and its events.
pub open spec fn scan(lines: Seq<Seq<char>>) -> Option<(StorageView, Seq<EventView>)> {
    scan_from(lines, 0, StorageView::Absent, Seq::empty())
}

/// The unit scanned from one file.
#[derive(Debug)]
pub struct FileDomain {
    pub name: String,
    pub events: Vec<CairoEvent>,
    pub storage: StorageOutcome,
}

impl FileDomain {
    /// An empty unit for the file at `path`, named by its capitalized stem.
    pub fn new(path: &str) -> (r: FileDomain)
        ensures
            r.name@ == unit_name(path@),
            file_stem(path@).len() > 0 ==> r.name@.len() > 0,
            r.events@.len() == 0,
            r.storage == StorageOutcome::Absent,
    {
        FileDomain { name: unit_name_of(path), events: Vec::new(), storage: StorageOutcome::Absent }
    }

    /// Appends an event to the unit's list.
    pub fn add_cairo_event(&mut self, event: CairoEvent)
        ensures
            final(self).events@ == old(self).events@.push(event),
            final(self).name == old(self).name,
            final(self).storage == old(self).storage,
    {
        self.events.push(event);
    }
}

impl CairoStorage {
    /// Parses the field of one storage line, which holds a colon.
    fn field_of(line: &str) -> (r: Result<(Identifier, CairoType), ParserError>)
        requires
            contains(line@, seq![':']),
        ensures
            match r {
                Ok(f) => parse_field(line@) == Some((f.0.0@, f.1)),
                Err(e) => parse_field(line@) is None && error_view(e) == field_error(line@),
            },
    {
        let v = chars_of(line);
        let colon = vec![':'];
        assert(colon@ =~= seq![':']);
        proof {
            lemma_find_bounds(line@, colon@);
        }
        match find_exec(&v, &colon) {
            None => Err(ParserError::UnknownType(line.to_owned())),
            Some(k) => {
                let n = v.len();
                let name = trim_exec(line.substring_char(0, k));
                let t = trim_exec(line.substring_char(k + 1, n));
                let tn = t.unicode_len();
                let token = if tn > 0 && t.get_char(tn - 1) == ',' {
                    t.substring_char(0, tn - 1)
                } else {
                    t
                };
                assert(tn > 0 ==> t@.subrange(0, tn - 1) =~= t@.drop_last());
                let ty = CairoType::from_token(token)?;
                Ok((Identifier(name.to_owned()), ty))
            },
        }
    }

    /// Parses the lines of a storage block: one field per line that holds a
    /// colon, in order; other lines are skipped.
    pub fn from_lines(lines: &Vec<String>) -> (r: Result<CairoStorage, ParserError>)
        ensures
            match r {
                Ok(st) => parse_storage(lines_view(lines@)) == Some(fields_view(st.fields@)),
                Err(e) => parse_storage(lines_view(lines@)) is None && error_view(e)
                    == storage_error(lines_view(lines@)),
            },
    {
        let ghost lv = lines_view(lines@);
        let mut fields: Vec<(Identifier, CairoType)> = Vec::new();
        let mut i: usize = 0;
        assert(lv.subrange(0, 0) =~= Seq::<Seq<char>>::empty());
        assert(fields_view(fields@) =~= Seq::empty());
        while i < lines.len()
            invariant
                lv == lines_view(lines@),
                i <= lines@.len(),
                parse_storage(lv.subrange(0, i as int)) == Some(fields_view(fields@)),
            decreases lines.len() - i,
        {
            let line = lines[i].as_str();
            assert(lv.subrange(0, i + 1).drop_last() =~= lv.subrange(0, i as int));
            assert(lv.subrange(0, i + 1).last() == line@);
            let colon = contains_exec(line, ":");
            proof {
                reveal_strlit(":");
                assert(":"@ =~= seq![':']);
            }
            if colon {
                match CairoStorage::field_of(line) {
                    Ok(f) => {
                        let ghost before = fields_view(fields@);
                        fields.push(f);
                        assert(fields_view(fields@) =~= before.push((f.0.0@, f.1)));
                    },
                    Err(e) => {
                        proof {
                            lemma_storage_none_extends(lv, i as int + 1);
                        }
                        return Err(e);
                    },
                }
            }
            i = i + 1;
        }
        assert(lv.subrange(0, i as int) =~= lv);
        Ok(CairoStorage { fields })
    }
}

/// Where the fields of some first lines do not parse, neither do those of
/// all, and for the same reason.
pub proof fn lemma_storage_none_extends(lines: Seq<Seq<char>>, i: int)
    requires
        0 <= i <= lines.len(),
        parse_storage(lines.subrange(0, i)) is None,
    ensures
        parse_storage(lines) is None,
        storage_error(lines) == storage_error(lines.subrange(0, i)),
    decreases lines.len() - i,
{
    if i < lines.len() {
        assert(lines.subrange(0, i + 1).drop_last() =~= lines.subrange(0, i));
        lemma_storage_none_extends(lines, i + 1);
    } else {
        assert(lines.subrange(0, i) =~= lines);
    }
}

/// Scans the lines of the file at `path` into its unit: the storage block
/// is captured from its opening marker up to the first line with a closing
/// brace (or abandoned at the end of the file), and each event marker takes
/// the next line as an event signature. Fails where a captured field's type,
/// or a signature, does not parse.
pub fn parse_cairo_source(path: &str, lines: &Vec<String>) -> (r: Result<FileDomain, ParserError>)
    ensures
        match r {
            Ok(d) => d.name@ == unit_name(path@) && (file_stem(path@).len() > 0
                ==> d.name@.len() > 0) && scan(lines_view(lines@)) == Some(
                (storage_view(d.storage), events_view(d.events@)),
            ) && forall|k: int|
                0 <= k < d.events@.len() ==> (#[trigger] d.events@[k]).definition_at >= 1
                    && d.events@[k].emitted_at@.len() == 0,
            Err(e) => scan(lines_view(lines@)) is None && error_view(e) == scan_error(
                lines_view(lines@),
            ),
        },
{
    let ghost lv = lines_view(lines@);
    let mut d = FileDomain::new(path);
    let n = lines.len();
    let mut i: usize = 0;
    assert(events_view(d.events@) =~= Seq::<EventView>::empty());
    proof {
        reveal_strlit("}");
        reveal_strlit("struct Storage");
        reveal_strlit("#[event]");
    }
    while i < n
        invariant
            lv == lines_view(lines@),
            n == lines@.len(),
            i <= n,
            d.name@ == unit_name(path@),
            file_stem(path@).len() > 0 ==> d.name@.len() > 0,
            scan(lv) == scan_from(lv, i as int, storage_view(d.storage), events_view(d.events@)),
            scan_error(lv) == scan_error_from(lv, i as int, storage_view(d.storage)),
            forall|k: int|
                0 <= k < d.events@.len() ==> (#[trigger] d.events@[k]).definition_at >= 1
                    && d.events@[k].emitted_at@.len() == 0,
        decreases n - i,
    {
        let line = lines[i].as_str();
        let mut p: usize = i + 1;
        let ghost old_storage = storage_view(d.storage);
        let opens = contains_exec(line, "struct Storage");
        if opens && matches!(d.storage, StorageOutcome::Absent) {
            let mut c: usize = i + 1;
            let mut buf: Vec<String> = Vec::new();
            assert(lines_view(buf@) =~= lv.subrange(i + 1, i + 1));
            while c < n && !contains_exec(lines[c].as_str(), "}")
                invariant
                    lv == lines_view(lines@),
                    n == lines@.len(),
                    i < c <= n,
                    close_from(lv, i + 1) == close_from(lv, c as int),
                    lines_view(buf@) == lv.subrange(i + 1, c as int),
                decreases n - c,
            {
                let ghost before = lines_view(buf@);
                buf.push(lines[c].clone());
                assert(lines_view(buf@) =~= before.push(lv[c as int]));
                assert(lv.subrange(i + 1, c + 1) =~= lv.subrange(i + 1, c as int).push(lv[c as int]));
                c = c + 1;
            }
            if c == n {
                d.storage = StorageOutcome::Unclosed;
                p = n;
            } else {
                let st = CairoStorage::from_lines(&buf)?;
                d.storage = StorageOutcome::Closed(st);
                p = c + 1;
            }
        }
        assert(storage_step(lv, i as int, old_storage) == Some((storage_view(d.storage), p as int)));
        if contains_exec(line, "#[event]") {
            if p < n {
                let mut e = CairoEvent::from_signature(lines[p].as_str())?;
                e.definined_at(p + 1);
                let ghost before = events_view(d.events@);
                let ghost ev = event_view(e);
                d.add_cairo_event(e);
                assert(events_view(d.events@) =~= before.push(ev));
                i = p + 1;
            } else {
                i = n;
            }
        } else {
            i = p;
        }
    }
    Ok(d)
}

} // verus!
