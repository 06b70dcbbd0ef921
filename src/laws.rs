//! Properties of the scanner and the type resolver that hold of every input.
use vstd::prelude::*;

use crate::event::{
    all_args_parse, arg_separator, arg_tokens, fn_keyword, is_letter, last_close, letters_end,
    parse_arg, parse_signature, signature, signature_at, signature_from, split_pieces,
    type_separator,
};
use crate::scanner::{
    block_close, close_from, event_marker, scan, scan_from, storage_marker, EventView, StorageView,
};
use crate::text::{contains, find_from, matches_at, trim};
use crate::types::{resolve, CairoType};

verus! {

/// The token that names a primitive type.
pub open spec fn primitive_token(t: CairoType) -> Seq<char> {
    match t {
        CairoType::Felt252 => "felt252"@,
        CairoType::ContractAddress => "ContractAddress"@,
        CairoType::U8 => "u8"@,
        CairoType::U16 => "u16"@,
        CairoType::U32 => "u32"@,
        CairoType::U64 => "u64"@,
        CairoType::U128 => "u128"@,
        CairoType::U256 => "u256"@,
        CairoType::LegacyMap(_, _) => Seq::empty(),
    }
}

pub open spec fn is_primitive(t: CairoType) -> bool {
    !(t is LegacyMap)
}

/// A token resolves to a primitive only where, trimmed, it is exactly that
/// primitive's name: no token matches a primitive by a part of it.
pub proof fn lemma_primitive_exact(t: Seq<char>)
    ensures
        match resolve(t) {
            Some(ty) => is_primitive(ty) ==> trim(t) == primitive_token(ty),
            None => true,
        },
{
}

/// Each primitive's name resolves to that primitive, whitespace around it
/// aside.
pub proof fn lemma_primitive_resolves(ty: CairoType)
    requires
        is_primitive(ty),
    ensures
        resolve(primitive_token(ty)) == Some(ty),
{
    reveal_strlit("felt252");
    reveal_strlit("ContractAddress");
    reveal_strlit("u8");
    reveal_strlit("u16");
    reveal_strlit("u32");
    reveal_strlit("u64");
    reveal_strlit("u128");
    reveal_strlit("u256");
    let s = primitive_token(ty);
    assert(s.len() > 0 && !crate::text::is_ws(s[0]));
    assert(trim(s) == s) by {
        assert(crate::text::trim_start(s) == s);
        assert(!crate::text::is_ws(s.last()));
    }
}

/// A scan that reaches an event marker on the last line, with no storage
/// marker on it, ends there with the events it had: the marker adds none.
pub proof fn lemma_trailing_marker(
    lines: Seq<Seq<char>>,
    storage: StorageView,
    events: Seq<EventView>,
)
    requires
        lines.len() > 0,
        contains(lines.last(), event_marker()),
        !contains(lines.last(), storage_marker()),
    ensures
        scan_from(lines, lines.len() - 1, storage, events) == Some((storage, events)),
{
}

/// No line holds both the storage marker and the event marker.
pub open spec fn markers_apart(lines: Seq<Seq<char>>) -> bool {
    forall|k: int|
        0 <= k < lines.len() ==> !(contains(#[trigger] lines[k], storage_marker()) && contains(
            lines[k],
            event_marker(),
        ))
}

proof fn lemma_close_from_cut(lines: Seq<Seq<char>>, j: int)
    requires
        0 <= j,
        lines.len() > 0,
        !contains(lines.last(), block_close()),
    ensures
        close_from(lines, j) == close_from(lines.drop_last(), j),
    decreases lines.len() - j,
{
    if j < lines.len() - 1 {
        lemma_close_from_cut(lines, j + 1);
    } else if j == lines.len() - 1 {
        assert(close_from(lines, j + 1) is None);
    }
}

proof fn lemma_trailing_marker_from(
    lines: Seq<Seq<char>>,
    i: int,
    storage: StorageView,
    events: Seq<EventView>,
)
    requires
        lines.len() >= 2,
        0 <= i <= lines.len() - 1,
        contains(lines.last(), event_marker()),
        !contains(lines.last(), storage_marker()),
        !contains(lines.last(), block_close()),
        !contains(lines[lines.len() - 2], event_marker()),
        markers_apart(lines),
    ensures
        scan_from(lines.drop_last(), i, storage, events) is Some ==> scan_from(
            lines,
            i,
            storage,
            events,
        ) is Some && scan_from(lines, i, storage, events).unwrap().1 == scan_from(
            lines.drop_last(),
            i,
            storage,
            events,
        ).unwrap().1,
    decreases lines.len() - i,
{
    let cut = lines.drop_last();
    let n = lines.len() as int;
    if i == n - 1 {
        lemma_trailing_marker(lines, storage, events);
    } else {
        assert(cut[i] == lines[i]);
        crate::scanner::lemma_close_from_bounds(cut, i + 1);
        lemma_close_from_cut(lines, i + 1);
        match crate::scanner::storage_step(cut, i, storage) {
            None => {
                let c = close_from(cut, i + 1).unwrap();
                assert(cut.subrange(i + 1, c) =~= lines.subrange(i + 1, c));
            },
            Some((st, p)) => {
                if contains(lines[i], storage_marker()) && storage is Absent {
                    assert(!contains(lines[i], event_marker()));
                    match close_from(cut, i + 1) {
                        None => {
                            assert(scan_from(lines, n, st, events) == Some((st, events)));
                            assert(scan_from(cut, n - 1, st, events) == Some((st, events)));
                        },
                        Some(c) => {
                            assert(cut.subrange(i + 1, c) =~= lines.subrange(i + 1, c));
                            lemma_trailing_marker_from(lines, p, st, events);
                        },
                    }
                } else if contains(lines[i], event_marker()) {
                    assert(p == i + 1);
                    if p < n - 1 {
                        assert(cut[p] == lines[p]);
                        match crate::event::parse_signature(lines[p]) {
                            Some((name, args)) => {
                                lemma_trailing_marker_from(
                                    lines,
                                    p + 1,
                                    st,
                                    events.push((name, args, p + 1)),
                                );
                            },
                            None => {},
                        }
                    }
                } else {
                    lemma_trailing_marker_from(lines, p, st, events);
                }
            },
        }
    }
}

/// An event marker on the last line of a file adds no event: where the file
/// without that line scans, the whole file scans to the same events. The
/// last line must not open or close a storage block, the line before it
/// must hold no event marker, and no line holds both markers (else the last
/// line would be read as a signature or a block line).
pub proof fn lemma_trailing_marker_adds_nothing(lines: Seq<Seq<char>>)
    requires
        lines.len() >= 2,
        contains(lines.last(), event_marker()),
        !contains(lines.last(), storage_marker()),
        !contains(lines.last(), block_close()),
        !contains(lines[lines.len() - 2], event_marker()),
        markers_apart(lines),
    ensures
        scan(lines.drop_last()) is Some ==> scan(lines) is Some && scan(lines).unwrap().1 == scan(
            lines.drop_last(),
        ).unwrap().1,
{
    lemma_trailing_marker_from(lines, 0, StorageView::Absent, Seq::empty());
}

/// No line at or after `i` closes a block.
pub open spec fn never_closed(lines: Seq<Seq<char>>, i: int) -> bool {
    forall|k: int| i <= k < lines.len() ==> !contains(#[trigger] lines[k], block_close())
}

proof fn lemma_close_from_none(lines: Seq<Seq<char>>, i: int)
    requires
        0 <= i,
        never_closed(lines, i),
    ensures
        close_from(lines, i) is None,
    decreases lines.len() - i,
{
    if i < lines.len() {
        lemma_close_from_none(lines, i + 1);
    }
}

/// A storage block opened on line `i` and never closed is abandoned: the
/// scan ends without error, keeping the events found before it.
pub proof fn lemma_unclosed_storage(lines: Seq<Seq<char>>, i: int, events: Seq<EventView>)
    requires
        0 <= i < lines.len(),
        contains(lines[i], storage_marker()),
        never_closed(lines, i + 1),
    ensures
        scan_from(lines, i, StorageView::Absent, events) == Some((StorageView::Unclosed, events)),
{
    lemma_close_from_none(lines, i + 1);
    assert(crate::scanner::storage_step(lines, i, StorageView::Absent) == Some(
        (StorageView::Unclosed, lines.len() as int),
    ));
    assert(scan_from(lines, lines.len() as int, StorageView::Unclosed, events) == Some(
        (StorageView::Unclosed, events),
    ));
}

proof fn lemma_unclosed_from(lines: Seq<Seq<char>>, k: int, i: int, events: Seq<EventView>)
    requires
        0 < k < lines.len(),
        0 <= i <= k,
        contains(lines[k], storage_marker()),
        forall|j: int| 0 <= j < k ==> !contains(#[trigger] lines[j], storage_marker()),
        never_closed(lines, k + 1),
        !contains(lines[k - 1], event_marker()),
    ensures
        scan_from(lines.subrange(0, k), i, StorageView::Absent, events) is Some ==> scan_from(
            lines,
            i,
            StorageView::Absent,
            events,
        ) is Some && scan_from(lines, i, StorageView::Absent, events).unwrap().1 == scan_from(
            lines.subrange(0, k),
            i,
            StorageView::Absent,
            events,
        ).unwrap().1,
    decreases k - i,
{
    let cut = lines.subrange(0, k);
    if i == k {
        lemma_unclosed_storage(lines, k, events);
    } else {
        assert(cut[i] == lines[i]);
        assert(!contains(lines[i], storage_marker()));
        if contains(lines[i], event_marker()) {
            if i + 1 < k {
                assert(cut[i + 1] == lines[i + 1]);
                match crate::event::parse_signature(lines[i + 1]) {
                    Some((name, args)) => {
                        lemma_unclosed_from(lines, k, i + 2, events.push((name, args, i + 2)));
                    },
                    None => {},
                }
            }
        } else {
            lemma_unclosed_from(lines, k, i + 1, events);
        }
    }
}

/// A storage block opened on line `k`, the first storage marker, and never
/// closed leaves the events declared before it as they are: where the file
/// cut before line `k` scans, the whole file scans to the same events. The
/// line before `k` must hold no event marker (else line `k` would be read as
/// a signature).
pub proof fn lemma_unclosed_keeps_events(lines: Seq<Seq<char>>, k: int)
    requires
        0 < k < lines.len(),
        contains(lines[k], storage_marker()),
        forall|j: int| 0 <= j < k ==> !contains(#[trigger] lines[j], storage_marker()),
        never_closed(lines, k + 1),
        !contains(lines[k - 1], event_marker()),
    ensures
        scan(lines.subrange(0, k)) is Some ==> scan(lines) is Some && scan(lines).unwrap().1
            == scan(lines.subrange(0, k)).unwrap().1,
{
    lemma_unclosed_from(lines, k, 0, Seq::empty());
}

/// `name` is a contiguous piece of `s`.
pub open spec fn is_piece(s: Seq<char>, name: Seq<char>) -> bool {
    exists|a: int, b: int| 0 <= a <= b <= s.len() && #[trigger] s.subrange(a, b) == name
}

/// Every event of a scan so far was declared in these lines: its name is a
/// piece of the line at which it was declared.
pub open spec fn declared_in(lines: Seq<Seq<char>>, events: Seq<EventView>) -> bool {
    forall|k: int|
        0 <= k < events.len() ==> {
            let (name, _, line) = #[trigger] events[k];
            1 <= line <= lines.len() && is_piece(lines[line - 1], name)
        }
}

proof fn lemma_signature_name(s: Seq<char>, i: int)
    requires
        0 <= i,
    ensures
        match crate::event::signature_from(s, i) {
            Some((j, e, _, _)) => 0 <= j <= e <= s.len(),
            None => true,
        },
    decreases s.len() - i,
{
    if i < s.len() {
        if crate::event::signature_at(s, i) is None {
            lemma_signature_name(s, i + 1);
        } else {
            lemma_letters_end(s, i + 3);
        }
    }
}

proof fn lemma_letters_end(s: Seq<char>, j: int)
    ensures
        j <= crate::event::letters_end(s, j),
        0 <= j <= s.len() ==> crate::event::letters_end(s, j) <= s.len(),
    decreases s.len() - j,
{
    if 0 <= j < s.len() && crate::event::is_letter(s[j]) {
        lemma_letters_end(s, j + 1);
    }
}

/// A scan keeps every event it records tied to its own lines: each event's
/// name is a piece of the line it was declared at. So a unit holds only
/// what its own file declares, whatever other files hold.
pub proof fn lemma_events_from_own_lines(
    lines: Seq<Seq<char>>,
    i: int,
    storage: StorageView,
    events: Seq<EventView>,
)
    requires
        0 <= i,
        declared_in(lines, events),
    ensures
        match scan_from(lines, i, storage, events) {
            Some((_, evs)) => declared_in(lines, evs),
            None => true,
        },
    decreases lines.len() - i,
{
    if 0 <= i < lines.len() {
        crate::scanner::lemma_close_from_bounds(lines, i + 1);
        match crate::scanner::storage_step(lines, i, storage) {
            None => {},
            Some((st, p)) => {
                if contains(lines[i], event_marker()) {
                    if p < lines.len() {
                        match crate::event::parse_signature(lines[p]) {
                            Some((name, args)) => {
                                let l = lines[p];
                                lemma_signature_name(l, 0);
                                let (j, e, _, _) = crate::event::signature_from(l, 0).unwrap();
                                let evs = events.push((name, args, p + 1));
                                assert(l.subrange(j, e) == name);
                                assert forall|k: int| 0 <= k < evs.len() implies {
                                    let (n, _, line) = #[trigger] evs[k];
                                    1 <= line <= lines.len() && is_piece(lines[line - 1], n)
                                } by {
                                    if k == events.len() {
                                        assert(lines[p].subrange(j, e) == name);
                                    } else {
                                        assert(evs[k] == events[k]);
                                    }
                                }
                                lemma_events_from_own_lines(lines, p + 1, st, evs);
                            },
                            None => {},
                        }
                    }
                } else {
                    lemma_events_from_own_lines(lines, p, st, events);
                }
            },
        }
    }
}

/// `pat` occurs nowhere in `s`.
pub open spec fn free_of(s: Seq<char>, pat: Seq<char>) -> bool {
    forall|k: int| !#[trigger] matches_at(s, k, pat)
}

/// `s` holds no comma.
pub open spec fn comma_free(s: Seq<char>) -> bool {
    forall|k: int| 0 <= k < s.len() ==> #[trigger] s[k] != ','
}

/// `s` is a non-empty run of ASCII letters.
pub open spec fn letters(s: Seq<char>) -> bool {
    s.len() > 0 && forall|k: int| 0 <= k < s.len() ==> is_letter(#[trigger] s[k])
}

/// The signature line `fn name(a: t1, b: t2)`.
pub open spec fn two_argument_line(
    name: Seq<char>,
    a: Seq<char>,
    t1: Seq<char>,
    b: Seq<char>,
    t2: Seq<char>,
) -> Seq<char> {
    seq!['f', 'n', ' '] + name + seq!['('] + a + seq![':', ' '] + t1 + seq![',', ' '] + b + seq![
        ':',
        ' ',
    ] + t2 + seq![')']
}

proof fn lemma_letters_run(s: Seq<char>, j: int, e: int)
    requires
        0 <= j <= e < s.len(),
        forall|k: int| j <= k < e ==> is_letter(#[trigger] s[k]),
        !is_letter(s[e]),
    ensures
        letters_end(s, j) == e,
    decreases e - j,
{
    if j < e {
        lemma_letters_run(s, j + 1, e);
    }
}

proof fn lemma_find_first(s: Seq<char>, pat: Seq<char>, i: int, p: int)
    requires
        0 <= i <= p,
        matches_at(s, p, pat),
        forall|k: int| i <= k < p ==> !#[trigger] matches_at(s, k, pat),
    ensures
        find_from(s, pat, i) == Some(p),
    decreases p - i,
{
    if i < p {
        lemma_find_first(s, pat, i + 1, p);
    }
}

proof fn lemma_find_absent(s: Seq<char>, pat: Seq<char>, i: int)
    requires
        0 <= i,
        free_of(s, pat),
    ensures
        find_from(s, pat, i) is None,
    decreases s.len() + 1 - i,
{
    if i + pat.len() <= s.len() {
        assert(!matches_at(s, i, pat));
        lemma_find_absent(s, pat, i + 1);
    }
}

/// An occurrence of `pat` holds `pat`'s characters.
proof fn lemma_match_char(s: Seq<char>, k: int, pat: Seq<char>, j: int)
    requires
        matches_at(s, k, pat),
        0 <= j < pat.len(),
    ensures
        s[k + j] == pat[j],
{
    assert(s.subrange(k, k + pat.len())[j] == s[k + j]);
}

/// An occurrence of `pat` inside a piece `x` of `s` is one in `x`.
proof fn lemma_match_inner(s: Seq<char>, x: Seq<char>, off: int, k: int, pat: Seq<char>)
    requires
        0 <= off,
        off + x.len() <= s.len(),
        s.subrange(off, off + x.len()) == x,
        0 <= k,
        k + pat.len() <= x.len(),
        matches_at(s, off + k, pat),
    ensures
        matches_at(x, k, pat),
{
    assert(x.subrange(k, k + pat.len()) =~= s.subrange(off + k, off + k + pat.len()));
}

/// In `x + ": " + t`, with no `", "` in `x` and no comma in `t`, there is no
/// `", "` at all.
proof fn lemma_no_comma_sep(x: Seq<char>, t: Seq<char>)
    requires
        free_of(x, arg_separator()),
        comma_free(t),
    ensures
        free_of(x + seq![':', ' '] + t, arg_separator()),
{
    let s = x + seq![':', ' '] + t;
    let sep = arg_separator();
    assert forall|k: int| !#[trigger] matches_at(s, k, sep) by {
        if matches_at(s, k, sep) {
            lemma_match_char(s, k, sep, 0);
            lemma_match_char(s, k, sep, 1);
            if k + 2 <= x.len() {
                assert(s.subrange(0, x.len() as int) =~= x);
                lemma_match_inner(s, x, 0, k, sep);
            } else if k == x.len() - 1 {
                assert(s[k + 1] == ':');
            } else if k == x.len() || k == x.len() + 1 {
                assert(s[k] == ':' || s[k] == ' ');
            } else {
                assert(s[k] == t[k - x.len() - 2]);
            }
        }
    }
}

/// One argument token `a: t`, with no `": "` in `a`, parses as `a` of the
/// type that `t` resolves to.
proof fn lemma_one_argument(a: Seq<char>, t: Seq<char>)
    requires
        free_of(a, type_separator()),
        resolve(t) is Some,
    ensures
        parse_arg(a + seq![':', ' '] + t) == Some((a, resolve(t).unwrap())),
{
    let tok = a + seq![':', ' '] + t;
    let sep = type_separator();
    assert(tok.subrange(a.len() as int, a.len() + 2int) =~= sep);
    assert forall|k: int| 0 <= k < a.len() implies !#[trigger] matches_at(tok, k, sep) by {
        if matches_at(tok, k, sep) {
            if k + 2 <= a.len() {
                assert(tok.subrange(0, a.len() as int) =~= a);
                lemma_match_inner(tok, a, 0, k, sep);
            } else {
                lemma_match_char(tok, k, sep, 1);
                assert(tok[k + 1] == ':');
            }
        }
    }
    lemma_find_first(tok, sep, 0, a.len() as int);
    assert(tok.subrange(a.len() + 2int, tok.len() as int) =~= t);
    assert(tok.subrange(0, a.len() as int) =~= a);
}

/// A signature line `fn Name(a: T1, b: T2)` declares the event `Name` with
/// the arguments `a` and `b`, in that order, of the types that `T1` and `T2`
/// resolve to. The name is made of letters; neither argument name holds
/// `": "` or `", "`, and the types hold no comma.
pub proof fn lemma_two_argument_signature(
    name: Seq<char>,
    a: Seq<char>,
    t1: Seq<char>,
    b: Seq<char>,
    t2: Seq<char>,
)
    requires
        letters(name),
        free_of(a, type_separator()),
        free_of(a, arg_separator()),
        free_of(b, type_separator()),
        free_of(b, arg_separator()),
        comma_free(t1),
        comma_free(t2),
        resolve(t1) is Some,
        resolve(t2) is Some,
    ensures
        parse_signature(two_argument_line(name, a, t1, b, t2)) == Some(
            (name, seq![(a, resolve(t1).unwrap()), (b, resolve(t2).unwrap())]),
        ),
{
    let l = two_argument_line(name, a, t1, b, t2);
    let e: int = 3 + name.len() as int;
    assert(l.subrange(0, 3) =~= fn_keyword());
    assert forall|k: int| 3 <= k < e implies is_letter(#[trigger] l[k]) by {
        assert(l[k] == name[k - 3]);
    }
    assert(l[e] == '(');
    lemma_letters_run(l, 3, e);
    assert(last_close(l, e + 1, l.len() as int) == Some(l.len() - 1));
    assert(signature_at(l, 0) == Some((3int, e, e + 1, l.len() - 1)));
    assert(signature_from(l, 0) == signature_at(l, 0));
    let first: Seq<char> = a + seq![':', ' '] + t1;
    let second = b + seq![':', ' '] + t2;
    let args = first + seq![',', ' '] + second;
    assert(l.subrange(3, e) =~= name);
    assert(l.subrange(e + 1, l.len() - 1) =~= args);
    assert(signature(l) == Some((name, args)));

    // The argument text splits at the one separator after the first argument.
    let sep = arg_separator();
    lemma_no_comma_sep(a, t1);
    lemma_no_comma_sep(b, t2);
    assert(args.subrange(first.len() as int, first.len() + 2int) =~= sep);
    assert(args.subrange(0, first.len() as int) =~= first);
    assert forall|k: int| 0 <= k < first.len() implies !#[trigger] matches_at(args, k, sep) by {
        if matches_at(args, k, sep) {
            if k + 2 <= first.len() {
                lemma_match_inner(args, first, 0, k, sep);
                assert(!matches_at(first, k, sep));
            } else {
                lemma_match_char(args, k, sep, 0);
                assert(args[k] == first[k]);
                assert(first[k] == t1[k - a.len() - 2]);
            }
        }
    }
    lemma_find_first(args, sep, 0, first.len() as int);
    assert(args.subrange(first.len() + 2int, args.len() as int) =~= second);
    lemma_find_absent(second, sep, 0);
    assert(split_pieces(second) == seq![second]);
    assert(split_pieces(args) == seq![first] + seq![second]);
    let toks = arg_tokens(args);
    assert(toks =~= seq![first, second]);

    lemma_one_argument(a, t1);
    lemma_one_argument(b, t2);
    assert(all_args_parse(toks));
    assert(toks.map_values(|t: Seq<char>| parse_arg(t).unwrap()) =~= seq![
        (a, resolve(t1).unwrap()),
        (b, resolve(t2).unwrap()),
    ]);
}

} // verus!
