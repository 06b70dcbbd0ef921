//! Event declarations: the signature grammar `fn Name(a: T, b: U)` and the
//! handler text rendered for an event.
use vstd::prelude::*;
use vstd::string::*;

use crate::error::{error_view, ErrorView, ParserError};
use crate::text::{
    chars_of, find, find_exec, join, lemma_find_bounds, matches_at, matches_at_exec,
};
use crate::types::{failing_token, graphql_of, resolve, CairoType};

verus! {

/// The keyword that opens a signature, with its trailing space.
pub open spec fn fn_keyword() -> Seq<char> {
    seq!['f', 'n', ' ']
}

/// The separator between two arguments.
pub open spec fn arg_separator() -> Seq<char> {
    seq![',', ' ']
}

/// The separator between an argument's name and its type.
pub open spec fn type_separator() -> Seq<char> {
    seq![':', ' ']
}

/// An ASCII letter, the only character an event name may hold.
pub open spec fn is_letter(c: char) -> bool {
    let u = c as u32;
    (0x41 <= u && u <= 0x5a) || (0x61 <= u && u <= 0x7a)
}

/// The end of the run of letters that starts at `j`.
pub open spec fn letters_end(s: Seq<char>, j: int) -> int
    decreases s.len() - j,
{
    if 0 <= j < s.len() && is_letter(s[j]) {
        letters_end(s, j + 1)
    } else {
        j
    }
}

/// The last position in `[lo, hi)` that holds a `)`.
pub open spec fn last_close(s: Seq<char>, lo: int, hi: int) -> Option<int>
    decreases hi - lo,
{
    if hi <= lo {
        None
    } else if s[hi - 1] == ')' {
        Some(hi - 1)
    } else {
        last_close(s, lo, hi - 1)
    }
}

/// A signature that starts at `i`: `fn `, a non-empty run of letters, `(`, and
/// a later `)`. Gives the bounds of the name and of the text between the `(`
/// and the last `)` of the line.
pub open spec fn signature_at(s: Seq<char>, i: int) -> Option<(int, int, int, int)> {
    if matches_at(s, i, fn_keyword()) {
        let j = i + 3;
        let e = letters_end(s, j);
        if j < e && e < s.len() && s[e] == '(' {
            match last_close(s, e + 1, s.len() as int) {
                Some(c) => Some((j, e, e + 1, c)),
                None => None,
            }
        } else {
            None
        }
    } else {
        None
    }
}

/// The leftmost signature at or after `i`.
pub open spec fn signature_from(s: Seq<char>, i: int) -> Option<(int, int, int, int)>
    decreases s.len() - i,
{
    if i < 0 || i >= s.len() {
        None
    } else {
        match signature_at(s, i) {
            Some(b) => Some(b),
            None => signature_from(s, i + 1),
        }
    }
}

/// The event name and the argument text of a signature line, if it has the
/// shape `fn Name(args)`.
pub open spec fn signature(s: Seq<char>) -> Option<(Seq<char>, Seq<char>)> {
    match signature_from(s, 0) {
        Some((j, e, a, c)) => Some((s.subrange(j, e), s.subrange(a, c))),
        None => None,
    }
}

/// The pieces of `s` between the occurrences of `", "`.
pub open spec fn split_pieces(s: Seq<char>) -> Seq<Seq<char>>
    decreases s.len(),
    via split_pieces_decreases
{
    match find(s, arg_separator()) {
        Some(k) => seq![s.subrange(0, k)] + split_pieces(s.subrange(k + 2, s.len() as int)),
        None => seq![s],
    }
}

#[via_fn]
proof fn split_pieces_decreases(s: Seq<char>) {
    lemma_find_bounds(s, arg_separator());
}

/// The argument tokens of an argument text: none for an empty text.
pub open spec fn arg_tokens(s: Seq<char>) -> Seq<Seq<char>> {
    if s.len() == 0 {
        Seq::empty()
    } else {
        split_pieces(s)
    }
}

/// The name and type of one argument token, split at its first `": "`.
pub open spec fn parse_arg(t: Seq<char>) -> Option<(Seq<char>, CairoType)> {
    match find(t, type_separator()) {
        Some(k) => match resolve(t.subrange(k + 2, t.len() as int)) {
            Some(ty) => Some((t.subrange(0, k), ty)),
            None => None,
        },
        None => None,
    }
}

/// The error that a token which does not parse as an argument gives: no
/// `": "` in it, or the type part naming no type.
pub open spec fn arg_error(t: Seq<char>) -> ErrorView {
    match find(t, type_separator()) {
        Some(k) => ErrorView::UnknownType(failing_token(t.subrange(k + 2, t.len() as int))),
        None => ErrorView::MissingArgumentSeparator(t),
    }
}

/// The error of the first token that does not parse as an argument.
pub open spec fn first_arg_error(toks: Seq<Seq<char>>) -> ErrorView
    decreases toks.len(),
{
    if toks.len() == 0 {
        ErrorView::MalformedSignature(Seq::empty())
    } else if parse_arg(toks[0]) is None {
        arg_error(toks[0])
    } else {
        first_arg_error(toks.drop_first())
    }
}

/// The error of a signature line that does not parse: the line itself where
/// it lacks the `fn Name(...)` shape, else its first failing argument.
pub open spec fn signature_error(line: Seq<char>) -> ErrorView {
    match signature(line) {
        None => ErrorView::MalformedSignature(line),
        Some((_, args)) => first_arg_error(arg_tokens(args)),
    }
}

/// The arguments of an argument text, where every token parses.
pub open spec fn parse_args(s: Seq<char>) -> Option<Seq<(Seq<char>, CairoType)>> {
    if all_args_parse(arg_tokens(s)) {
        Some(arg_tokens(s).map_values(|t: Seq<char>| parse_arg(t).unwrap()))
    } else {
        None
    }
}

/// Every token parses as an argument.
pub open spec fn all_args_parse(toks: Seq<Seq<char>>) -> bool {
    forall|i: int| 0 <= i < toks.len() ==> (#[trigger] parse_arg(toks[i])) is Some
}

/// What a signature line declares: its name and arguments.
pub open spec fn parse_signature(line: Seq<char>) -> Option<(Seq<char>, Seq<(Seq<char>, CairoType)>)> {
    match signature(line) {
        Some((name, args)) => match parse_args(args) {
            Some(a) => Some((name, a)),
            None => None,
        },
        None => None,
    }
}

/// One typed argument of an event.
#[derive(Debug, PartialEq, Eq)]
pub struct CairoArgument {
    pub name: String,
    pub ty: CairoType,
}

/// The abstract value of an argument: its name and type.
pub open spec fn arg_view(a: CairoArgument) -> (Seq<char>, CairoType) {
    (a.name@, a.ty)
}

pub open spec fn args_view(v: Seq<CairoArgument>) -> Seq<(Seq<char>, CairoType)> {
    v.map_values(|a: CairoArgument| arg_view(a))
}

/// The handler function name for a name: `handle` then the name.
pub open spec fn handler_name(name: Seq<char>) -> Seq<char> {
    "handle"@ + name
}

/// The schema line of an argument: `name: Scalar,`.
pub open spec fn arg_line(a: (Seq<char>, CairoType)) -> Seq<char> {
    a.0 + ": "@ + graphql_of(a.1) + ","@
}

impl CairoArgument {
    pub fn new(name: String, ty: CairoType) -> (r: CairoArgument)
        ensures
            arg_view(r) == (name@, ty),
    {
        CairoArgument { name, ty }
    }

    /// `handle` followed by the argument's name.
    pub fn js_function_name(&self) -> (r: String)
        ensures
            r@ == handler_name(self.name@),
    {
        let mut s = "handle".to_owned();
        s.append(self.name.as_str());
        s
    }

    /// The schema line of this argument.
    pub fn to_string(&self) -> (r: String)
        ensures
            r@ == arg_line(arg_view(*self)),
    {
        let mut s = self.name.clone();
        s.append(": ");
        s.append(self.ty.to_string().as_str());
        s.append(",");
        s
    }

    /// Parses one argument token `name: Type`, split at its first `": "`.
    pub fn from_token(token: &str) -> (r: Result<CairoArgument, ParserError>)
        ensures
            match r {
                Ok(a) => parse_arg(token@) == Some(arg_view(a)),
                Err(e) => parse_arg(token@) is None && error_view(e) == arg_error(token@),
            },
    {
        let v = chars_of(token);
        let sep = vec![':', ' '];
        assert(sep@ =~= type_separator());
        proof {
            lemma_find_bounds(token@, sep@);
        }
        match find_exec(&v, &sep) {
            None => Err(ParserError::MissingArgumentSeparator(token.to_owned())),
            Some(k) => {
                let n = token.unicode_len();
                let name = token.substring_char(0, k);
                let ty = CairoType::from_token(token.substring_char(k + 2, n))?;
                Ok(CairoArgument { name: name.to_owned(), ty })
            },
        }
    }
}

/// The pieces of `s` between the occurrences of `", "`, in order.
pub fn split_args(s: &str) -> (r: Vec<String>)
    ensures
        r@.map_values(|p: String| p@) == split_pieces(s@),
{
    let sep = vec![',', ' '];
    assert(sep@ =~= arg_separator());
    let mut out: Vec<String> = Vec::new();
    let mut rest: &str = s;
    assert(out@.map_values(|p: String| p@) + split_pieces(rest@) =~= split_pieces(s@));
    loop
        invariant
            sep@ == arg_separator(),
            out@.map_values(|p: String| p@) + split_pieces(rest@) == split_pieces(s@),
        decreases rest@.len(),
    {
        let v = chars_of(rest);
        proof {
            lemma_find_bounds(rest@, sep@);
        }
        match find_exec(&v, &sep) {
            None => {
                let ghost before = out@.map_values(|p: String| p@);
                out.push(rest.to_owned());
                assert(out@.map_values(|p: String| p@) =~= before + split_pieces(rest@));
                return out;
            },
            Some(k) => {
                let n = rest.unicode_len();
                let ghost before = out@.map_values(|p: String| p@);
                let ghost old_rest = rest@;
                out.push(rest.substring_char(0, k).to_owned());
                rest = rest.substring_char(k + 2, n);
                assert(out@.map_values(|p: String| p@) =~= before + seq![old_rest.subrange(0, k as int)]);
                assert(split_pieces(old_rest) == seq![old_rest.subrange(0, k as int)] + split_pieces(rest@));
                assert(out@.map_values(|p: String| p@) + split_pieces(rest@) =~= before + split_pieces(old_rest));
            },
        }
    }
}

/// What `str::to_lowercase` makes of a text.
pub uninterp spec fn lower_of(s: Seq<char>) -> Seq<char>;

/// Relies on `str::to_lowercase`: the lower-case form of each character, in
/// order; the result depends on the characters alone.
#[verifier::external_body]
fn lowercase(s: &str) -> (r: String)
    ensures
        r@ == lower_of(s@),
{
    s.to_lowercase()
}

/// The separator between the schema lines of an event's arguments.
pub open spec fn schema_separator() -> Seq<char> {
    "\n\t"@
}

/// The schema lines of an event's arguments, one per argument, in order.
pub open spec fn event_schema(args: Seq<(Seq<char>, CairoType)>) -> Seq<char> {
    join(args.map_values(|a: (Seq<char>, CairoType)| arg_line(a)), schema_separator())
}

/// The trigger name of an event whose lower-cased name is `lowered`.
pub open spec fn trigger_name(lowered: Seq<char>) -> Seq<char> {
    "new_"@ + lowered
}

/// The handler stub rendered for an event named `name`.
pub open spec fn js_handler(name: Seq<char>) -> Seq<char> {
    "\nexport async function handle"@ + name
        + "({ block, tx, event, mysql }: Parameters<CheckpointWriter>[0]) {\n    if (!event) return;\n\n    new Error('Not implemented yet !');\n}\n            "@
}

/// `new_` followed by an already lower-cased event name.
pub fn trigger_name_of(lowered: &str) -> (r: String)
    ensures
        r@ == trigger_name(lowered@),
{
    let mut s = "new_".to_owned();
    s.append(lowered);
    s
}

fn is_letter_exec(c: char) -> (r: bool)
    ensures
        r == is_letter(c),
{
    let u = c as u32;
    (0x41 <= u && u <= 0x5a) || (0x61 <= u && u <= 0x7a)
}

fn letters_end_exec(v: &Vec<char>, j: usize) -> (e: usize)
    requires
        j <= v@.len(),
    ensures
        e as int == letters_end(v@, j as int),
        j <= e <= v@.len(),
{
    let mut e = j;
    while e < v.len() && is_letter_exec(v[e])
        invariant
            j <= e <= v@.len(),
            letters_end(v@, j as int) == letters_end(v@, e as int),
        decreases v.len() - e,
    {
        e = e + 1;
    }
    e
}

fn last_close_exec(v: &Vec<char>, lo: usize, hi: usize) -> (r: Option<usize>)
    requires
        lo <= hi <= v@.len(),
    ensures
        match r {
            Some(c) => last_close(v@, lo as int, hi as int) == Some(c as int) && lo <= c < hi,
            None => last_close(v@, lo as int, hi as int) is None,
        },
{
    let mut h = hi;
    while h > lo && v[h - 1] != ')'
        invariant
            lo <= h <= hi <= v@.len(),
            last_close(v@, lo as int, hi as int) == last_close(v@, lo as int, h as int),
        decreases h - lo,
    {
        h = h - 1;
    }
    if h > lo {
        Some(h - 1)
    } else {
        None
    }
}

fn signature_at_exec(v: &Vec<char>, i: usize) -> (r: Option<(usize, usize, usize, usize)>)
    requires
        i < v@.len(),
    ensures
        match r {
            Some((j, e, a, c)) => signature_at(v@, i as int) == Some(
                (j as int, e as int, a as int, c as int),
            ) && j <= e < a <= c < v@.len(),
            None => signature_at(v@, i as int) is None,
        },
{
    let kw = vec!['f', 'n', ' '];
    assert(kw@ =~= fn_keyword());
    assert(fn_keyword().len() == 3);
    let n = v.len();
    if !matches_at_exec(v, i, &kw) {
        return None;
    }
    assert(i + 3 <= n);
    let j = i + 3;
    let e = letters_end_exec(v, j);
    if j < e && e < v.len() && v[e] == '(' {
        match last_close_exec(v, e + 1, v.len()) {
            Some(c) => Some((j, e, e + 1, c)),
            None => None,
        }
    } else {
        None
    }
}

/// The event name and the argument text of a signature line `fn Name(args)`:
/// the leftmost `fn ` followed by letters and `(`, with the text up to the
/// last `)` of the line.
pub fn split_signature(line: &str) -> (r: Option<(String, String)>)
    ensures
        match r {
            Some((name, args)) => signature(line@) == Some((name@, args@)),
            None => signature(line@) is None,
        },
{
    let v = chars_of(line);
    let n = v.len();
    let mut i: usize = 0;
    while i < n
        invariant
            n == v@.len(),
            v@ == line@,
            i <= n,
            signature_from(v@, 0) == signature_from(v@, i as int),
        decreases n - i,
    {
        match signature_at_exec(&v, i) {
            Some((j, e, a, c)) => {
                return Some((line.substring_char(j, e).to_owned(), line.substring_char(a, c).to_owned()));
            },
            None => {},
        }
        i = i + 1;
    }
    None
}

/// The arguments of an argument text, split at each `", "`; none for an
/// empty text. Fails on the first token that does not parse.
pub fn parse_arguments(args: &str) -> (r: Result<Vec<CairoArgument>, ParserError>)
    ensures
        match r {
            Ok(v) => parse_args(args@) == Some(args_view(v@)),
            Err(e) => parse_args(args@) is None && error_view(e) == first_arg_error(
                arg_tokens(args@),
            ),
        },
{
    let mut out: Vec<CairoArgument> = Vec::new();
    if args.unicode_len() == 0 {
        assert(args_view(out@) =~= arg_tokens(args@).map_values(
            |t: Seq<char>| parse_arg(t).unwrap(),
        ));
        return Ok(out);
    }
    let toks = split_args(args);
    let ghost ts = arg_tokens(args@);
    assert(toks@.map_values(|p: String| p@) == ts);
    assert(ts.subrange(0, ts.len() as int) =~= ts);
    let mut i: usize = 0;
    while i < toks.len()
        invariant
            ts == arg_tokens(args@),
            toks@.map_values(|p: String| p@) == ts,
            first_arg_error(ts) == first_arg_error(ts.subrange(i as int, ts.len() as int)),
            i <= toks@.len(),
            out@.len() == i,
            forall|j: int| 0 <= j < i ==> parse_arg(ts[j]) == Some(arg_view(#[trigger] out@[j])),
        decreases toks.len() - i,
    {
        assert(toks@[i as int]@ == ts[i as int]);
        assert(ts.subrange(i as int, ts.len() as int)[0] == ts[i as int]);
        assert(ts.subrange(i as int, ts.len() as int).drop_first() =~= ts.subrange(
            i + 1,
            ts.len() as int,
        ));
        match CairoArgument::from_token(toks[i].as_str()) {
            Ok(a) => {
                out.push(a);
            },
            Err(e) => {
                assert(i < ts.len());
                assert(parse_arg(ts[i as int]) is None);
                assert(!all_args_parse(ts));
                return Err(e);
            },
        }
        i = i + 1;
    }
    assert forall|j: int| 0 <= j < ts.len() implies #[trigger] parse_arg(ts[j]) is Some by {
        assert(parse_arg(ts[j]) == Some(arg_view(out@[j])));
    }
    assert(args_view(out@) =~= ts.map_values(|t: Seq<char>| parse_arg(t).unwrap()));
    Ok(out)
}

/// An event declaration: its name, its arguments in source order, and the
/// 1-based line of its signature. `emitted_at` is kept for the lines that emit
/// the event, which the scan does not collect.
#[derive(Debug)]
pub struct CairoEvent {
    pub name: String,
    pub arguments: Vec<CairoArgument>,
    pub definition_at: usize,
    pub emitted_at: Vec<usize>,
}

impl CairoEvent {
    /// Parses a signature line `fn Name(a: T, b: U)` into an event declared at
    /// line 0.
    pub fn from_signature(line: &str) -> (r: Result<CairoEvent, ParserError>)
        ensures
            match r {
                Ok(e) => parse_signature(line@) == Some((e.name@, args_view(e.arguments@)))
                    && e.definition_at == 0 && e.emitted_at@.len() == 0,
                Err(e) => parse_signature(line@) is None && error_view(e) == signature_error(
                    line@,
                ),
            },
    {
        match split_signature(line) {
            None => Err(ParserError::MalformedSignature(line.to_owned())),
            Some((name, args)) => {
                let arguments = parse_arguments(args.as_str())?;
                Ok(CairoEvent { name, arguments, definition_at: 0, emitted_at: Vec::new() })
            },
        }
    }

    /// Records the line at which the event is declared.
    pub fn definined_at(&mut self, line: usize)
        ensures
            final(self).definition_at == line,
            final(self).name == old(self).name,
            final(self).arguments == old(self).arguments,
            final(self).emitted_at == old(self).emitted_at,
    {
        self.definition_at = line;
    }

    /// The name of the event's handler: `handle` then the event name.
    pub fn to_js_function_string(&self) -> (r: String)
        ensures
            r@ == handler_name(self.name@),
    {
        let mut s = "handle".to_owned();
        s.append(self.name.as_str());
        s
    }

    /// The name of the event's trigger: `new_` then the lower-cased event name.
    pub fn to_js_function_name_string(&self) -> (r: String)
        ensures
            r@ == trigger_name(lower_of(self.name@)),
    {
        let lowered = lowercase(self.name.as_str());
        trigger_name_of(lowered.as_str())
    }

    /// The handler stub for this event.
    pub fn to_js_function(&self) -> (r: String)
        ensures
            r@ == js_handler(self.name@),
    {
        let mut s = "\nexport async function handle".to_owned();
        s.append(self.name.as_str());
        s.append(
            "({ block, tx, event, mysql }: Parameters<CheckpointWriter>[0]) {\n    if (!event) return;\n\n    new Error('Not implemented yet !');\n}\n            ",
        );
        s
    }

    /// The schema lines of the event's arguments, joined by a line break and a tab.
    pub fn to_string(&self) -> (r: String)
        ensures
            r@ == event_schema(args_view(self.arguments@)),
    {
        let ghost lines = args_view(self.arguments@).map_values(
            |a: (Seq<char>, CairoType)| arg_line(a),
        );
        let mut s = String::new();
        let mut i: usize = 0;
        while i < self.arguments.len()
            invariant
                lines == args_view(self.arguments@).map_values(
                    |a: (Seq<char>, CairoType)| arg_line(a),
                ),
                i <= self.arguments@.len(),
                s@ == join(lines.subrange(0, i as int), schema_separator()),
            decreases self.arguments.len() - i,
        {
            let line = self.arguments[i].to_string();
            let ghost prev = lines.subrange(0, i as int);
            assert(lines.subrange(0, i + 1).drop_last() =~= prev);
            if i > 0 {
                s.append("\n\t");
            }
            s.append(line.as_str());
            i = i + 1;
        }
        assert(lines.subrange(0, i as int) =~= lines);
        s
    }
}

} // verus!
