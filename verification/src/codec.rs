//! Wire protocol codec.
//!
//! An envelope travels as a keyed record with the fields `messageType`,
//! `dataArray` and `data`, in that fixed order; the discriminator
//! serializes to the lowercase tokens `users`, `register` and `message`.
//! `encode` produces the canonical serialized form; `decode` accepts that
//! form with arbitrary whitespace between the syntactic pieces, string
//! escapes included, and classifies every failure as a [`DecodeError`].
//!
//! The grammar is stated by spec functions over `Seq<char>`; each
//! executable parsing step is proved to agree with its spec counterpart
//! exactly, so `decode`'s contract pins down both the accepted strings and
//! the envelope each of them denotes.

use vstd::prelude::*;

use crate::chars::string_from_chars;
use crate::chars::str_chars;

verus! {

/// Discriminator of a wire envelope.
#[derive(Clone, Copy, PartialEq, Eq, Structural, Debug)]
pub enum MsgTypes {
    Users,
    Register,
    Message,
}

/// A decoded wire envelope. Exactly one of `data_array` / `data` is
/// meaningful, selected by `message_type`.
#[derive(Clone, Debug, PartialEq)]
pub struct WireEnvelope {
    pub message_type: MsgTypes,
    pub data_array: Option<Vec<String>>,
    pub data: Option<String>,
}

/// Mathematical model of a [`WireEnvelope`].
pub struct EnvelopeView {
    pub message_type: MsgTypes,
    pub data_array: Option<Seq<Seq<char>>>,
    pub data: Option<Seq<char>>,
}

impl View for WireEnvelope {
    type V = EnvelopeView;

    open spec fn view(&self) -> EnvelopeView {
        EnvelopeView {
            message_type: self.message_type,
            data_array: self.data_array.deep_view(),
            data: self.data.deep_view(),
        }
    }
}

/// The nested payload of a `message` envelope.
#[derive(Clone, Debug, PartialEq)]
pub struct MessageData {
    pub from: String,
    pub message: String,
}

/// Mathematical model of a [`MessageData`].
pub struct MessageDataView {
    pub from: Seq<char>,
    pub message: Seq<char>,
}

impl View for MessageData {
    type V = MessageDataView;

    open spec fn view(&self) -> MessageDataView {
        MessageDataView { from: self.from@, message: self.message@ }
    }
}

/// Why a wire string was rejected.
#[derive(Clone, Copy, PartialEq, Eq, Structural, Debug)]
pub enum DecodeError {
    /// The text is not a record of the wire grammar.
    Malformed,
    /// The record parses, but the discriminator is not one of the three
    /// known tokens.
    UnknownKind,
    /// The record parses, but the field its discriminator selects is null.
    ShapeMismatch,
}

// ------------------------------------------------------------------
// Grammar: whitespace
// ------------------------------------------------------------------

/// The four whitespace characters the wire grammar skips between tokens.
pub open spec fn is_json_ws(c: char) -> bool {
    c == ' ' || c == '\t' || c == '\n' || c == '\r'
}

/// First position at or after `i` holding a non-whitespace character
/// (or the end of the input).
pub open spec fn spec_skip_ws(s: Seq<char>, i: int) -> int
    decreases s.len() - i,
{
    if 0 <= i < s.len() && is_json_ws(s[i]) {
        spec_skip_ws(s, i + 1)
    } else {
        i
    }
}

pub proof fn lemma_skip_ws_bounds(s: Seq<char>, i: int)
    requires
        0 <= i <= s.len(),
    ensures
        i <= spec_skip_ws(s, i) <= s.len(),
    decreases s.len() - i,
{
    if i < s.len() && is_json_ws(s[i]) {
        lemma_skip_ws_bounds(s, i + 1);
    }
}

fn skip_ws(v: &Vec<char>, i: usize) -> (j: usize)
    requires
        i <= v@.len(),
    ensures
        j as int == spec_skip_ws(v@, i as int),
        i <= j <= v@.len(),
    decreases v@.len() - i,
{
    if i < v.len() {
        let c = v[i];
        if c == ' ' || c == '\t' || c == '\n' || c == '\r' {
            return skip_ws(v, i + 1);
        }
    }
    i
}

// ------------------------------------------------------------------
// Grammar: strings with escapes
// ------------------------------------------------------------------

/// The character denoted by `c` when it follows a backslash, if the
/// escape is part of the grammar.
pub open spec fn escape_code(c: char) -> Option<char> {
    if c == '"' {
        Some('"')
    } else if c == '\\' {
        Some('\\')
    } else if c == '/' {
        Some('/')
    } else if c == 'b' {
        Some('\u{8}')
    } else if c == 'f' {
        Some('\u{c}')
    } else if c == 'n' {
        Some('\n')
    } else if c == 'r' {
        Some('\r')
    } else if c == 't' {
        Some('\t')
    } else {
        None
    }
}

fn escape_code_exec(c: char) -> (r: Option<char>)
    ensures
        r == escape_code(c),
{
    if c == '"' {
        Some('"')
    } else if c == '\\' {
        Some('\\')
    } else if c == '/' {
        Some('/')
    } else if c == 'b' {
        Some('\u{8}')
    } else if c == 'f' {
        Some('\u{c}')
    } else if c == 'n' {
        Some('\n')
    } else if c == 'r' {
        Some('\r')
    } else if c == 't' {
        Some('\t')
    } else {
        None
    }
}

/// Parses the body of a quoted string starting at `i` (the position right
/// after the opening quote). On success yields the denoted characters and
/// the position right after the closing quote.
pub open spec fn spec_parse_string_body(s: Seq<char>, i: int) -> Option<(Seq<char>, int)>
    decreases s.len() - i,
{
    if !(0 <= i < s.len()) {
        None
    } else if s[i] == '"' {
        Some((Seq::empty(), i + 1))
    } else if s[i] == '\\' {
        if i + 1 < s.len() {
            match escape_code(s[i + 1]) {
                Some(c) => match spec_parse_string_body(s, i + 2) {
                    Some(p) => Some((seq![c] + p.0, p.1)),
                    None => None,
                },
                None => None,
            }
        } else {
            None
        }
    } else {
        match spec_parse_string_body(s, i + 1) {
            Some(p) => Some((seq![s[i]] + p.0, p.1)),
            None => None,
        }
    }
}

pub proof fn lemma_parse_string_body_bounds(s: Seq<char>, i: int)
    requires
        spec_parse_string_body(s, i) is Some,
    ensures
        i < spec_parse_string_body(s, i).unwrap().1 <= s.len(),
    decreases s.len() - i,
{
    if 0 <= i < s.len() {
        if s[i] == '"' {
        } else if s[i] == '\\' {
            lemma_parse_string_body_bounds(s, i + 2);
        } else {
            lemma_parse_string_body_bounds(s, i + 1);
        }
    }
}

fn parse_string_body(v: &Vec<char>, i: usize) -> (r: Option<(Vec<char>, usize)>)
    requires
        i <= v@.len(),
    ensures
        r is Some <==> spec_parse_string_body(v@, i as int) is Some,
        r is Some ==> {
            let sp = spec_parse_string_body(v@, i as int).unwrap();
            sp.0 == r.unwrap().0@ && sp.1 == r.unwrap().1 as int
        },
        r is Some ==> r.unwrap().1 <= v@.len(),
    decreases v@.len() - i,
{
    proof {
        if spec_parse_string_body(v@, i as int) is Some {
            lemma_parse_string_body_bounds(v@, i as int);
        }
    }
    if i >= v.len() {
        return None;
    }
    let c = v[i];
    if c == '"' {
        return Some((Vec::new(), i + 1));
    }
    if c == '\\' {
        if i + 1 < v.len() {
            match escape_code_exec(v[i + 1]) {
                Some(d) => match parse_string_body(v, i + 2) {
                    Some((mut rest, j)) => {
                        rest.insert(0, d);
                        proof {
                            assert(rest@ == seq![d] + rest@.subrange(1, rest@.len() as int));
                        }
                        Some((rest, j))
                    },
                    None => None,
                },
                None => None,
            }
        } else {
            None
        }
    } else {
        match parse_string_body(v, i + 1) {
            Some((mut rest, j)) => {
                rest.insert(0, c);
                proof {
                    assert(rest@ == seq![c] + rest@.subrange(1, rest@.len() as int));
                }
                Some((rest, j))
            },
            None => None,
        }
    }
}

// ------------------------------------------------------------------
// Grammar: fixed literals
// ------------------------------------------------------------------

/// The characters of `lit` occur verbatim in `s` starting at `i`.
pub open spec fn lit_at(s: Seq<char>, i: int, lit: Seq<char>) -> bool {
    0 <= i && i + lit.len() <= s.len() && s.subrange(i, i + lit.len()) == lit
}

fn check_lit(v: &Vec<char>, i: usize, lit: &str) -> (r: bool)
    requires
        i <= v@.len(),
    ensures
        r == lit_at(v@, i as int, lit@),
{
    let n = lit.unicode_len();
    if n > v.len() - i {
        return false;
    }
    let end: usize = i + n;
    let mut k: usize = 0;
    while k < n
        invariant
            i + n <= v@.len(),
            end == i + n,
            n == lit@.len(),
            k <= n,
            forall|t: int| 0 <= t < k ==> v@[i + t] == lit@[t],
        decreases n - k,
    {
        if v[i + k] != lit.get_char(k) {
            proof {
                if lit_at(v@, i as int, lit@) {
                    assert(v@.subrange(i as int, i + lit@.len())[k as int] == lit@[k as int]);
                }
            }
            return false;
        }
        k = k + 1;
    }
    proof {
        assert(v@.subrange(i as int, i + lit@.len()) =~= lit@);
    }
    true
}

/// `check_lit` and the position just past the literal, in one step.
fn expect_lit(v: &Vec<char>, i: usize, lit: &str) -> (r: Option<usize>)
    requires
        i <= v@.len(),
    ensures
        r is Some <==> lit_at(v@, i as int, lit@),
        r is Some ==> r.unwrap() as int == i + lit@.len() && r.unwrap() <= v@.len(),
{
    let n = lit.unicode_len();
    if check_lit(v, i, lit) {
        // Binding the vector's length as a usize lets the prover see
        // that `i + n` fits.
        let _len = v.len();
        Some(i + n)
    } else {
        None
    }
}

/// The whole of `v` spells exactly `lit`.
fn chars_eq_lit(v: &Vec<char>, lit: &str) -> (r: bool)
    ensures
        r == (v@ == lit@),
{
    let n = lit.unicode_len();
    if v.len() != n {
        return false;
    }
    let r = check_lit(v, 0, lit);
    proof {
        if r {
            assert(v@.subrange(0, lit@.len() as int) =~= v@);
        } else {
            assert(v@ != lit@) by {
                if v@ == lit@ {
                    assert(v@.subrange(0, lit@.len() as int) =~= lit@);
                }
            }
        }
    }
    r
}

// ------------------------------------------------------------------
// Grammar: arrays of strings
// ------------------------------------------------------------------

/// Parses a non-empty comma-separated list of quoted strings starting at
/// `i` (which must hold an opening quote), up to and including the closing
/// `]`.
pub open spec fn spec_parse_array_items(s: Seq<char>, i: int) -> Option<(Seq<Seq<char>>, int)>
    decreases s.len() - i,
    via spec_parse_array_items_decreases
{
    if 0 <= i < s.len() && s[i] == '"' {
        match spec_parse_string_body(s, i + 1) {
            Some(p) => {
                let k = spec_skip_ws(s, p.1);
                if k < s.len() && s[k] == ',' {
                    let m = spec_skip_ws(s, k + 1);
                    match spec_parse_array_items(s, m) {
                        Some(q) => Some((seq![p.0] + q.0, q.1)),
                        None => None,
                    }
                } else if k < s.len() && s[k] == ']' {
                    Some((seq![p.0], k + 1))
                } else {
                    None
                }
            },
            None => None,
        }
    } else {
        None
    }
}

#[via_fn]
proof fn spec_parse_array_items_decreases(s: Seq<char>, i: int) {
    if 0 <= i < s.len() && s[i] == '"' {
        if spec_parse_string_body(s, i + 1) is Some {
            lemma_parse_string_body_bounds(s, i + 1);
            let p = spec_parse_string_body(s, i + 1).unwrap();
            lemma_skip_ws_bounds(s, p.1);
            let k = spec_skip_ws(s, p.1);
            if k < s.len() && s[k] == ',' {
                lemma_skip_ws_bounds(s, k + 1);
            }
        }
    }
}

fn parse_array_items(v: &Vec<char>, i: usize) -> (r: Option<(Vec<Vec<char>>, usize)>)
    requires
        i <= v@.len(),
    ensures
        r is Some <==> spec_parse_array_items(v@, i as int) is Some,
        r is Some ==> {
            let sp = spec_parse_array_items(v@, i as int).unwrap();
            sp.0 == r.unwrap().0.deep_view() && sp.1 == r.unwrap().1 as int
        },
        r is Some ==> r.unwrap().1 <= v@.len(),
    decreases v@.len() - i,
{
    if i >= v.len() {
        return None;
    }
    if v[i] != '"' {
        return None;
    }
    match parse_string_body(v, i + 1) {
        Some((first, j)) => {
            proof {
                lemma_parse_string_body_bounds(v@, i as int + 1);
            }
            let k = skip_ws(v, j);
            if k < v.len() && v[k] == ',' {
                let m = skip_ws(v, k + 1);
                match parse_array_items(v, m) {
                    Some((mut rest, e)) => {
                        let mut out: Vec<Vec<char>> = Vec::new();
                        out.push(first);
                        out.append(&mut rest);
                        proof {
                            assert(out.deep_view() =~~= spec_parse_array_items(
                                v@,
                                i as int,
                            ).unwrap().0);
                        }
                        Some((out, e))
                    },
                    None => None,
                }
            } else if k < v.len() && v[k] == ']' {
                let mut one: Vec<Vec<char>> = Vec::new();
                one.push(first);
                proof {
                    assert(one.deep_view() =~~= seq![first@]);
                }
                Some((one, k + 1))
            } else {
                None
            }
        },
        None => None,
    }
}

/// Parses a whole array value (`[` ... `]`) starting at `i`.
pub open spec fn spec_parse_array(s: Seq<char>, i: int) -> Option<(Seq<Seq<char>>, int)> {
    if 0 <= i < s.len() && s[i] == '[' {
        let j = spec_skip_ws(s, i + 1);
        if j < s.len() && s[j] == ']' {
            Some((Seq::empty(), j + 1))
        } else {
            spec_parse_array_items(s, j)
        }
    } else {
        None
    }
}

fn parse_array(v: &Vec<char>, i: usize) -> (r: Option<(Vec<Vec<char>>, usize)>)
    requires
        i <= v@.len(),
    ensures
        r is Some <==> spec_parse_array(v@, i as int) is Some,
        r is Some ==> {
            let sp = spec_parse_array(v@, i as int).unwrap();
            sp.0 == r.unwrap().0.deep_view() && sp.1 == r.unwrap().1 as int
        },
        r is Some ==> r.unwrap().1 <= v@.len(),
{
    if i >= v.len() {
        return None;
    }
    if v[i] != '[' {
        return None;
    }
    let j = skip_ws(v, i + 1);
    if j < v.len() && v[j] == ']' {
        let empty: Vec<Vec<char>> = Vec::new();
        proof {
            assert(empty.deep_view() =~= Seq::<Seq<char>>::empty());
        }
        Some((empty, j + 1))
    } else {
        parse_array_items(v, j)
    }
}

// ------------------------------------------------------------------
// Grammar: nullable values
// ------------------------------------------------------------------

/// A value that is either `null` or a quoted string.
pub open spec fn spec_parse_opt_string(s: Seq<char>, i: int) -> Option<(Option<Seq<char>>, int)> {
    let nl = "null"@;
    if lit_at(s, i, nl) {
        Some((None, i + nl.len()))
    } else if 0 <= i < s.len() && s[i] == '"' {
        match spec_parse_string_body(s, i + 1) {
            Some(p) => Some((Some(p.0), p.1)),
            None => None,
        }
    } else {
        None
    }
}

fn parse_opt_string(v: &Vec<char>, i: usize) -> (r: Option<(Option<Vec<char>>, usize)>)
    requires
        i <= v@.len(),
    ensures
        r is Some <==> spec_parse_opt_string(v@, i as int) is Some,
        r is Some ==> {
            let sp = spec_parse_opt_string(v@, i as int).unwrap();
            sp.0 == r.unwrap().0.deep_view() && sp.1 == r.unwrap().1 as int
        },
        r is Some ==> r.unwrap().1 <= v@.len(),
{
    match expect_lit(v, i, "null") {
        Some(j) => Some((None, j)),
        None => {
            if i < v.len() && v[i] == '"' {
                match parse_string_body(v, i + 1) {
                    Some((cs, j)) => Some((Some(cs), j)),
                    None => None,
                }
            } else {
                None
            }
        },
    }
}

/// A value that is either `null` or an array of quoted strings.
pub open spec fn spec_parse_opt_array(s: Seq<char>, i: int) -> Option<
    (Option<Seq<Seq<char>>>, int),
> {
    let nl = "null"@;
    if lit_at(s, i, nl) {
        Some((None, i + nl.len()))
    } else {
        match spec_parse_array(s, i) {
            Some(p) => Some((Some(p.0), p.1)),
            None => None,
        }
    }
}

fn parse_opt_array(v: &Vec<char>, i: usize) -> (r: Option<(Option<Vec<Vec<char>>>, usize)>)
    requires
        i <= v@.len(),
    ensures
        r is Some <==> spec_parse_opt_array(v@, i as int) is Some,
        r is Some ==> {
            let sp = spec_parse_opt_array(v@, i as int).unwrap();
            sp.0 == r.unwrap().0.deep_view() && sp.1 == r.unwrap().1 as int
        },
        r is Some ==> r.unwrap().1 <= v@.len(),
{
    match expect_lit(v, i, "null") {
        Some(j) => Some((None, j)),
        None => match parse_array(v, i) {
            Some((a, j)) => Some((Some(a), j)),
            None => None,
        },
    }
}

// ------------------------------------------------------------------
// Grammar: the envelope record
// ------------------------------------------------------------------

/// The raw content of a parsed envelope record, before the discriminator
/// token is interpreted.
pub struct RawEnvelope {
    pub kind_token: Seq<char>,
    pub data_array: Option<Seq<Seq<char>>>,
    pub data: Option<Seq<char>>,
}

/// Parses a whole input as an envelope record: the keys `messageType`,
/// `dataArray` and `data`, in that fixed order, with arbitrary whitespace
/// between the syntactic pieces and nothing but whitespace after the
/// closing brace.
pub open spec fn spec_parse_envelope(s: Seq<char>) -> Option<RawEnvelope> {
    let i0 = spec_skip_ws(s, 0);
    if i0 < s.len() && s[i0] == '{' {
        let i1 = spec_skip_ws(s, i0 + 1);
        let kmt = "\"messageType\""@;
        if lit_at(s, i1, kmt) {
            let i2 = spec_skip_ws(s, i1 + kmt.len());
            if i2 < s.len() && s[i2] == ':' {
                let i3 = spec_skip_ws(s, i2 + 1);
                if i3 < s.len() && s[i3] == '"' {
                    match spec_parse_string_body(s, i3 + 1) {
                        Some(tok) => {
                            let i4 = spec_skip_ws(s, tok.1);
                            let kda = "\"dataArray\""@;
                            if i4 < s.len() && s[i4] == ',' && lit_at(s, spec_skip_ws(s, i4 + 1), kda) {
                                let i5 = spec_skip_ws(s, i4 + 1);
                                let i6 = spec_skip_ws(s, i5 + kda.len());
                                if i6 < s.len() && s[i6] == ':' {
                                    match spec_parse_opt_array(s, spec_skip_ws(s, i6 + 1)) {
                                        Some(da) => {
                                            let i7 = spec_skip_ws(s, da.1);
                                            let kd = "\"data\""@;
                                            if i7 < s.len() && s[i7] == ',' && lit_at(
                                                s,
                                                spec_skip_ws(s, i7 + 1),
                                                kd,
                                            ) {
                                                let i8 = spec_skip_ws(s, i7 + 1);
                                                let i9 = spec_skip_ws(s, i8 + kd.len());
                                                if i9 < s.len() && s[i9] == ':' {
                                                    match spec_parse_opt_string(
                                                        s,
                                                        spec_skip_ws(s, i9 + 1),
                                                    ) {
                                                        Some(d) => {
                                                            let i10 = spec_skip_ws(s, d.1);
                                                            if i10 < s.len() && s[i10] == '}'
                                                                && spec_skip_ws(s, i10 + 1)
                                                                == s.len() {
                                                                Some(
                                                                    RawEnvelope {
                                                                        kind_token: tok.0,
                                                                        data_array: da.0,
                                                                        data: d.0,
                                                                    },
                                                                )
                                                            } else {
                                                                None
                                                            }
                                                        },
                                                        None => None,
                                                    }
                                                } else {
                                                    None
                                                }
                                            } else {
                                                None
                                            }
                                        },
                                        None => None,
                                    }
                                } else {
                                    None
                                }
                            } else {
                                None
                            }
                        },
                        None => None,
                    }
                } else {
                    None
                }
            } else {
                None
            }
        } else {
            None
        }
    } else {
        None
    }
}

/// Exec counterpart of [`spec_parse_envelope`].
fn parse_envelope(v: &Vec<char>) -> (r: Option<(Vec<char>, Option<Vec<Vec<char>>>, Option<
    Vec<char>,
>)>)
    ensures
        r is Some <==> spec_parse_envelope(v@) is Some,
        r is Some ==> {
            let sp = spec_parse_envelope(v@).unwrap();
            sp.kind_token == r.unwrap().0@ && sp.data_array == r.unwrap().1.deep_view()
                && sp.data == r.unwrap().2.deep_view()
        },
{
    let i0 = skip_ws(v, 0);
    if !(i0 < v.len() && v[i0] == '{') {
        return None;
    }
    let i1 = skip_ws(v, i0 + 1);
    let i2 = match expect_lit(v, i1, "\"messageType\"") {
        Some(j) => skip_ws(v, j),
        None => {
            return None;
        },
    };
    if !(i2 < v.len() && v[i2] == ':') {
        return None;
    }
    let i3 = skip_ws(v, i2 + 1);
    if !(i3 < v.len() && v[i3] == '"') {
        return None;
    }
    let (tok, t1) = match parse_string_body(v, i3 + 1) {
        Some(p) => p,
        None => {
            return None;
        },
    };
    let i4 = skip_ws(v, t1);
    if !(i4 < v.len() && v[i4] == ',') {
        return None;
    }
    let i5 = skip_ws(v, i4 + 1);
    let i6 = match expect_lit(v, i5, "\"dataArray\"") {
        Some(j) => skip_ws(v, j),
        None => {
            return None;
        },
    };
    if !(i6 < v.len() && v[i6] == ':') {
        return None;
    }
    let (da, a1) = match parse_opt_array(v, skip_ws(v, i6 + 1)) {
        Some(p) => p,
        None => {
            return None;
        },
    };
    let i7 = skip_ws(v, a1);
    if !(i7 < v.len() && v[i7] == ',') {
        return None;
    }
    let i8 = skip_ws(v, i7 + 1);
    let i9 = match expect_lit(v, i8, "\"data\"") {
        Some(j) => skip_ws(v, j),
        None => {
            return None;
        },
    };
    if !(i9 < v.len() && v[i9] == ':') {
        return None;
    }
    let (d, d1) = match parse_opt_string(v, skip_ws(v, i9 + 1)) {
        Some(p) => p,
        None => {
            return None;
        },
    };
    let i10 = skip_ws(v, d1);
    if !(i10 < v.len() && v[i10] == '}') {
        return None;
    }
    if skip_ws(v, i10 + 1) != v.len() {
        return None;
    }
    Some((tok, da, d))
}

// ------------------------------------------------------------------
// Grammar: the nested message payload
// ------------------------------------------------------------------

/// Parses a whole input as the nested payload record of a `message`
/// envelope: the keys `from` and `message`, in that fixed order.
pub open spec fn spec_parse_message_data(s: Seq<char>) -> Option<MessageDataView> {
    let i0 = spec_skip_ws(s, 0);
    if i0 < s.len() && s[i0] == '{' {
        let i1 = spec_skip_ws(s, i0 + 1);
        let kf = "\"from\""@;
        if lit_at(s, i1, kf) {
            let i2 = spec_skip_ws(s, i1 + kf.len());
            if i2 < s.len() && s[i2] == ':' {
                let i3 = spec_skip_ws(s, i2 + 1);
                if i3 < s.len() && s[i3] == '"' {
                    match spec_parse_string_body(s, i3 + 1) {
                        Some(f) => {
                            let i4 = spec_skip_ws(s, f.1);
                            let km = "\"message\""@;
                            if i4 < s.len() && s[i4] == ',' && lit_at(s, spec_skip_ws(s, i4 + 1), km) {
                                let i5 = spec_skip_ws(s, i4 + 1);
                                let i6 = spec_skip_ws(s, i5 + km.len());
                                if i6 < s.len() && s[i6] == ':' {
                                    let i7 = spec_skip_ws(s, i6 + 1);
                                    if i7 < s.len() && s[i7] == '"' {
                                        match spec_parse_string_body(s, i7 + 1) {
                                            Some(m) => {
                                                let i8 = spec_skip_ws(s, m.1);
                                                if i8 < s.len() && s[i8] == '}' && spec_skip_ws(
                                                    s,
                                                    i8 + 1,
                                                ) == s.len() {
                                                    Some(MessageDataView { from: f.0, message: m.0 })
                                                } else {
                                                    None
                                                }
                                            },
                                            None => None,
                                        }
                                    } else {
                                        None
                                    }
                                } else {
                                    None
                                }
                            } else {
                                None
                            }
                        },
                        None => None,
                    }
                } else {
                    None
                }
            } else {
                None
            }
        } else {
            None
        }
    } else {
        None
    }
}

/// Decodes the nested `{from, message}` payload of a `message` envelope.
pub fn decode_message_data(s: &str) -> (r: Result<MessageData, DecodeError>)
    ensures
        r is Ok <==> spec_parse_message_data(s@) is Some,
        r is Ok ==> r->Ok_0@ == spec_parse_message_data(s@).unwrap(),
        r is Err ==> r->Err_0 == DecodeError::Malformed,
{
    let v = str_chars(s);
    let i0 = skip_ws(&v, 0);
    if !(i0 < v.len() && v[i0] == '{') {
        return Err(DecodeError::Malformed);
    }
    let i1 = skip_ws(&v, i0 + 1);
    let i2 = match expect_lit(&v, i1, "\"from\"") {
        Some(j) => skip_ws(&v, j),
        None => {
            return Err(DecodeError::Malformed);
        },
    };
    if !(i2 < v.len() && v[i2] == ':') {
        return Err(DecodeError::Malformed);
    }
    let i3 = skip_ws(&v, i2 + 1);
    if !(i3 < v.len() && v[i3] == '"') {
        return Err(DecodeError::Malformed);
    }
    let (f, f1) = match parse_string_body(&v, i3 + 1) {
        Some(p) => p,
        None => {
            return Err(DecodeError::Malformed);
        },
    };
    let i4 = skip_ws(&v, f1);
    if !(i4 < v.len() && v[i4] == ',') {
        return Err(DecodeError::Malformed);
    }
    let i5 = skip_ws(&v, i4 + 1);
    let i6 = match expect_lit(&v, i5, "\"message\"") {
        Some(j) => skip_ws(&v, j),
        None => {
            return Err(DecodeError::Malformed);
        },
    };
    if !(i6 < v.len() && v[i6] == ':') {
        return Err(DecodeError::Malformed);
    }
    let i7 = skip_ws(&v, i6 + 1);
    if !(i7 < v.len() && v[i7] == '"') {
        return Err(DecodeError::Malformed);
    }
    let (m, m1) = match parse_string_body(&v, i7 + 1) {
        Some(p) => p,
        None => {
            return Err(DecodeError::Malformed);
        },
    };
    let i8 = skip_ws(&v, m1);
    if !(i8 < v.len() && v[i8] == '}') {
        return Err(DecodeError::Malformed);
    }
    if skip_ws(&v, i8 + 1) != v.len() {
        return Err(DecodeError::Malformed);
    }
    Ok(MessageData { from: string_from_chars(&f), message: string_from_chars(&m) })
}

// ------------------------------------------------------------------
// Decoding an envelope
// ------------------------------------------------------------------

/// The discriminator denoted by a token, if it is one of the three known
/// lowercase tokens.
pub open spec fn spec_kind_of_token(t: Seq<char>) -> Option<MsgTypes> {
    if t == "users"@ {
        Some(MsgTypes::Users)
    } else if t == "register"@ {
        Some(MsgTypes::Register)
    } else if t == "message"@ {
        Some(MsgTypes::Message)
    } else {
        None
    }
}

/// What `decode` returns on every input: the parsed envelope, or the
/// error that classifies the failure.
pub open spec fn spec_decode(s: Seq<char>) -> Result<EnvelopeView, DecodeError> {
    match spec_parse_envelope(s) {
        None => Err(DecodeError::Malformed),
        Some(raw) => match spec_kind_of_token(raw.kind_token) {
            None => Err(DecodeError::UnknownKind),
            Some(k) => {
                if k == MsgTypes::Users && raw.data_array is None {
                    Err(DecodeError::ShapeMismatch)
                } else if (k == MsgTypes::Register || k == MsgTypes::Message) && raw.data is None {
                    Err(DecodeError::ShapeMismatch)
                } else {
                    Ok(EnvelopeView { message_type: k, data_array: raw.data_array, data: raw.data })
                }
            },
        },
    }
}

/// Decodes a raw wire string into an envelope, classifying every failure.
pub fn decode(s: &str) -> (r: Result<WireEnvelope, DecodeError>)
    ensures
        r is Ok <==> spec_decode(s@) is Ok,
        r is Ok ==> r->Ok_0@ == spec_decode(s@)->Ok_0,
        r is Err ==> r->Err_0 == spec_decode(s@)->Err_0,
{
    let v = str_chars(s);
    let (tok, da, d) = match parse_envelope(&v) {
        Some(p) => p,
        None => {
            return Err(DecodeError::Malformed);
        },
    };
    let kind: MsgTypes = if chars_eq_lit(&tok, "users") {
        MsgTypes::Users
    } else if chars_eq_lit(&tok, "register") {
        MsgTypes::Register
    } else if chars_eq_lit(&tok, "message") {
        MsgTypes::Message
    } else {
        return Err(DecodeError::UnknownKind);
    };
    let data_array: Option<Vec<String>> = match da {
        None => None,
        Some(items) => Some(strings_of_char_vecs(&items)),
    };
    let data: Option<String> = match d {
        None => None,
        Some(cs) => Some(string_from_chars(&cs)),
    };
    if kind == MsgTypes::Users && data_array.is_none() {
        return Err(DecodeError::ShapeMismatch);
    }
    if (kind == MsgTypes::Register || kind == MsgTypes::Message) && data.is_none() {
        return Err(DecodeError::ShapeMismatch);
    }
    let e = WireEnvelope { message_type: kind, data_array, data };
    proof {
        assert(e@.data_array =~~= spec_decode(s@)->Ok_0.data_array);
        assert(e@.data =~~= spec_decode(s@)->Ok_0.data);
    }
    Ok(e)
}

/// Converts a vector of character vectors into the strings they spell.
fn strings_of_char_vecs(items: &Vec<Vec<char>>) -> (out: Vec<String>)
    ensures
        out.deep_view() == items.deep_view(),
        out@.len() == items@.len(),
{
    let mut out: Vec<String> = Vec::new();
    let mut i: usize = 0;
    while i < items.len()
        invariant
            i <= items@.len(),
            out@.len() == i,
            forall|t: int| 0 <= t < i ==> out@[t]@ == items@[t]@,
        decreases items@.len() - i,
    {
        out.push(string_from_chars(&items[i]));
        i = i + 1;
    }
    proof {
        assert(out.deep_view() =~~= items.deep_view());
    }
    out
}

// ------------------------------------------------------------------
// Encoding
// ------------------------------------------------------------------

/// The characters that stand for `c` inside a quoted string of the
/// canonical form: quotes, backslashes and the five named control
/// characters are escaped, every other character stands for itself.
pub open spec fn spec_escape_frag(c: char) -> Seq<char> {
    if c == '"' {
        seq!['\\', '"']
    } else if c == '\\' {
        seq!['\\', '\\']
    } else if c == '\u{8}' {
        seq!['\\', 'b']
    } else if c == '\u{c}' {
        seq!['\\', 'f']
    } else if c == '\n' {
        seq!['\\', 'n']
    } else if c == '\r' {
        seq!['\\', 'r']
    } else if c == '\t' {
        seq!['\\', 't']
    } else {
        seq![c]
    }
}

/// The escaped body of a quoted string.
pub open spec fn spec_escape(s: Seq<char>) -> Seq<char>
    decreases s.len(),
{
    if s.len() == 0 {
        Seq::empty()
    } else {
        spec_escape_frag(s[0]) + spec_escape(s.subrange(1, s.len() as int))
    }
}

proof fn lemma_escape_snoc(t: Seq<char>, c: char)
    ensures
        spec_escape(t.push(c)) == spec_escape(t) + spec_escape_frag(c),
    decreases t.len(),
{
    if t.len() == 0 {
        let u = t.push(c);
        assert(u.len() == 1);
        assert(u[0] == c);
        assert(u.subrange(1, 1) =~= Seq::<char>::empty());
        assert(spec_escape(u) == spec_escape_frag(c) + spec_escape(u.subrange(1, 1)));
        assert(spec_escape_frag(c) + Seq::<char>::empty() =~= spec_escape_frag(c));
        assert(spec_escape(t) == Seq::<char>::empty());
        assert(Seq::<char>::empty() + spec_escape_frag(c) =~= spec_escape_frag(c));
    } else {
        let u = t.push(c);
        assert(u[0] == t[0]);
        assert(u.subrange(1, u.len() as int) =~= t.subrange(1, t.len() as int).push(c));
        lemma_escape_snoc(t.subrange(1, t.len() as int), c);
        assert(spec_escape(u) == spec_escape_frag(t[0]) + (spec_escape(t.subrange(1, t.len() as int))
            + spec_escape_frag(c)));
        assert(spec_escape(t.push(c)) =~= spec_escape(t) + spec_escape_frag(c));
    }
}

/// A quoted string of the canonical form.
pub open spec fn spec_quote(s: Seq<char>) -> Seq<char> {
    seq!['"'] + spec_escape(s) + seq!['"']
}

proof fn lemma_parse_escaped_at(w: Seq<char>, i: int, s: Seq<char>, j: int)
    requires
        0 <= i <= j < w.len(),
        j == i + spec_escape(s).len(),
        w.subrange(i, j) == spec_escape(s),
        w[j] == '"',
    ensures
        spec_parse_string_body(w, i) == Some((s, j + 1)),
    decreases s.len(),
{
    if s.len() == 0 {
        assert(spec_escape(s).len() == 0);
        assert(w[i] == '"');
    } else {
        let c = s[0];
        let frag = spec_escape_frag(c);
        let rest = s.subrange(1, s.len() as int);
        assert(spec_escape(s) == frag + spec_escape(rest));
        assert(frag.len() >= 1);
        assert(w[i] == spec_escape(s)[0]) by {
            assert(w.subrange(i, j)[0] == w[i]);
        }
        assert(w[i] == frag[0]);
        assert(w.subrange(i + frag.len(), j) =~= spec_escape(rest)) by {
            assert forall|t: int| 0 <= t < j - i - frag.len() implies w.subrange(
                i + frag.len(),
                j,
            )[t] == spec_escape(rest)[t] by {
                assert(w.subrange(i, j)[frag.len() + t] == spec_escape(s)[frag.len() + t]);
            }
        }
        if frag.len() == 2 {
            assert(w[i] == '\\');
            assert(w[i + 1] == frag[1]) by {
                assert(w.subrange(i, j)[1] == spec_escape(s)[1]);
            }
            assert(escape_code(frag[1]) == Some(c));
            lemma_parse_escaped_at(w, i + 2, rest, j);
            assert(spec_parse_string_body(w, i + 2) == Some((rest, j + 1)));
            assert(seq![c] + rest =~= s);
        } else {
            assert(frag == seq![c]);
            assert(w[i] == c);
            assert(c != '"' && c != '\\');
            lemma_parse_escaped_at(w, i + 1, rest, j);
            assert(spec_parse_string_body(w, i + 1) == Some((rest, j + 1)));
            assert(seq![c] + rest =~= s);
        }
    }
}

/// The canonical form of an array value: comma-separated quoted strings,
/// no whitespace.
pub open spec fn spec_encode_items(a: Seq<Seq<char>>) -> Seq<char>
    decreases a.len(),
{
    if a.len() == 0 {
        Seq::empty()
    } else if a.len() == 1 {
        spec_quote(a[0])
    } else {
        spec_quote(a[0]) + seq![','] + spec_encode_items(a.subrange(1, a.len() as int))
    }
}

/// The canonical form of the `dataArray` field value.
pub open spec fn spec_encode_opt_array(oa: Option<Seq<Seq<char>>>) -> Seq<char> {
    match oa {
        None => "null"@,
        Some(a) => seq!['['] + spec_encode_items(a) + seq![']'],
    }
}

/// The canonical form of the `data` field value.
pub open spec fn spec_encode_opt_string(od: Option<Seq<char>>) -> Seq<char> {
    match od {
        None => "null"@,
        Some(d) => spec_quote(d),
    }
}

/// The lowercase token of a discriminator.
pub open spec fn spec_kind_token(k: MsgTypes) -> Seq<char> {
    match k {
        MsgTypes::Users => "users"@,
        MsgTypes::Register => "register"@,
        MsgTypes::Message => "message"@,
    }
}

/// The canonical serialized form of an envelope.
pub open spec fn spec_encode(e: EnvelopeView) -> Seq<char> {
    "{\"messageType\":"@ + spec_quote(spec_kind_token(e.message_type)) + ",\"dataArray\":"@
        + spec_encode_opt_array(e.data_array) + ",\"data\":"@ + spec_encode_opt_string(e.data)
        + "}"@
}

/// Appends the characters of `lit` to `out`.
fn push_lit(out: &mut Vec<char>, lit: &str)
    ensures
        final(out)@ == old(out)@ + lit@,
{
    let mut cs = str_chars(lit);
    out.append(&mut cs);
}

/// Appends the escaped form of `s` to `out`.
fn push_escaped(out: &mut Vec<char>, s: &Vec<char>)
    ensures
        final(out)@ == old(out)@ + spec_escape(s@),
{
    let mut i: usize = 0;
    proof {
        assert(spec_escape(s@.subrange(0, 0)) =~= Seq::<char>::empty());
        assert(out@ =~= out@ + spec_escape(s@.subrange(0, 0)));
    }
    while i < s.len()
        invariant
            i <= s@.len(),
            out@ == old(out)@ + spec_escape(s@.subrange(0, i as int)),
        decreases s@.len() - i,
    {
        let c = s[i];
        if c == '"' {
            out.push('\\');
            out.push('"');
        } else if c == '\\' {
            out.push('\\');
            out.push('\\');
        } else if c == '\u{8}' {
            out.push('\\');
            out.push('b');
        } else if c == '\u{c}' {
            out.push('\\');
            out.push('f');
        } else if c == '\n' {
            out.push('\\');
            out.push('n');
        } else if c == '\r' {
            out.push('\\');
            out.push('r');
        } else if c == '\t' {
            out.push('\\');
            out.push('t');
        } else {
            out.push(c);
        }
        proof {
            lemma_escape_snoc(s@.subrange(0, i as int), c);
            assert(s@.subrange(0, i + 1 as int) =~= s@.subrange(0, i as int).push(c));
            assert(out@ =~= old(out)@ + spec_escape(s@.subrange(0, i + 1 as int)));
        }
        i = i + 1;
    }
    proof {
        assert(s@.subrange(0, s@.len() as int) =~= s@);
    }
}

/// Appends the quoted, escaped form of `s` to `out`.
fn push_quoted(out: &mut Vec<char>, s: &Vec<char>)
    ensures
        final(out)@ == old(out)@ + spec_quote(s@),
{
    out.push('"');
    push_escaped(out, s);
    out.push('"');
    proof {
        assert(out@ =~= old(out)@ + spec_quote(s@));
    }
}

/// Appends the canonical form of `items[from..]` to `out`.
fn push_items(out: &mut Vec<char>, items: &Vec<String>, from: usize)
    requires
        from <= items@.len(),
    ensures
        final(out)@ == old(out)@ + spec_encode_items(
            items.deep_view().subrange(from as int, items.deep_view().len() as int),
        ),
    decreases items@.len() - from,
{
    proof {
        assert(items.deep_view().len() == items@.len());
    }
    if from == items.len() {
        proof {
            assert(items.deep_view().subrange(from as int, items.deep_view().len() as int)
                =~= Seq::<Seq<char>>::empty());
            assert(out@ =~= old(out)@ + spec_encode_items(
                items.deep_view().subrange(from as int, items.deep_view().len() as int),
            ));
        }
        return ;
    }
    let cs = str_chars(items[from].as_str());
    push_quoted(out, &cs);
    if from + 1 == items.len() {
        proof {
            let sub = items.deep_view().subrange(from as int, items.deep_view().len() as int);
            assert(sub.len() == 1);
            assert(sub[0] == items@[from as int]@);
            assert(spec_encode_items(sub) == spec_quote(sub[0]));
            assert(out@ =~= old(out)@ + spec_encode_items(sub));
        }
    } else {
        push_lit(out, ",");
        push_items(out, items, from + 1);
        proof {
            reveal_strlit(",");
            let dv = items.deep_view();
            let sub = dv.subrange(from as int, dv.len() as int);
            assert(","@ =~= seq![',']);
            assert(sub.len() >= 2);
            assert(sub[0] == items@[from as int]@);
            assert(sub.subrange(1, sub.len() as int) =~= dv.subrange(from + 1 as int, dv.len() as int));
            assert(spec_encode_items(sub) == spec_quote(sub[0]) + seq![','] + spec_encode_items(
                sub.subrange(1, sub.len() as int),
            ));
            assert(out@ =~= old(out)@ + spec_encode_items(sub));
        }
    }
}

/// Encodes an envelope into its canonical serialized form.
pub fn encode(e: &WireEnvelope) -> (r: String)
    ensures
        r@ == spec_encode(e@),
{
    let mut out: Vec<char> = Vec::new();
    push_lit(&mut out, "{\"messageType\":");
    let tok: &str = match e.message_type {
        MsgTypes::Users => "users",
        MsgTypes::Register => "register",
        MsgTypes::Message => "message",
    };
    let tokv = str_chars(tok);
    push_quoted(&mut out, &tokv);
    push_lit(&mut out, ",\"dataArray\":");
    match &e.data_array {
        None => {
            push_lit(&mut out, "null");
        },
        Some(arr) => {
            out.push('[');
            push_items(&mut out, arr, 0);
            out.push(']');
            proof {
                assert(arr.deep_view().subrange(0, arr.deep_view().len() as int)
                    =~= arr.deep_view());
                assert(e@.data_array == Some(arr.deep_view()));
            }
        },
    }
    push_lit(&mut out, ",\"data\":");
    match &e.data {
        None => {
            push_lit(&mut out, "null");
        },
        Some(d) => {
            let dv = str_chars(d.as_str());
            push_quoted(&mut out, &dv);
            proof {
                assert(e@.data == Some(d@));
            }
        },
    }
    push_lit(&mut out, "}");
    proof {
        assert(out@ =~= spec_encode(e@));
    }
    string_from_chars(&out)
}

// ------------------------------------------------------------------
// Round trip of the codec
// ------------------------------------------------------------------

proof fn lemma_skip_ws_stay(s: Seq<char>, i: int)
    requires
        0 <= i,
        i < s.len() ==> !is_json_ws(s[i]),
    ensures
        spec_skip_ws(s, i) == i,
{
}

proof fn lemma_opt_string_round_trip(w: Seq<char>, i: int, od: Option<Seq<char>>, j: int)
    requires
        0 <= i <= j < w.len(),
        j == i + spec_encode_opt_string(od).len(),
        w.subrange(i, j) == spec_encode_opt_string(od),
    ensures
        spec_parse_opt_string(w, i) == Some((od, j)),
{
    reveal_strlit("null");
    match od {
        None => {
            assert(lit_at(w, i, "null"@));
        },
        Some(d) => {
            let q = spec_quote(d);
            assert(w[i] == q[0]) by {
                assert(w.subrange(i, j)[0] == q[0]);
            }
            assert(w[i] == '"');
            assert(!lit_at(w, i, "null"@)) by {
                if lit_at(w, i, "null"@) {
                    assert(w.subrange(i, i + 4)[0] == 'n');
                }
            }
            assert(w[j - 1] == '"') by {
                assert(w.subrange(i, j)[j - 1 - i] == q[q.len() - 1]);
            }
            assert(w.subrange(i + 1, j - 1) =~= spec_escape(d)) by {
                assert forall|t: int| 0 <= t < j - i - 2 implies w.subrange(i + 1, j - 1)[t]
                    == spec_escape(d)[t] by {
                    assert(w.subrange(i, j)[t + 1] == q[t + 1]);
                }
            }
            lemma_parse_escaped_at(w, i + 1, d, j - 1);
        },
    }
}

proof fn lemma_items_round_trip(w: Seq<char>, i: int, items: Seq<Seq<char>>, j: int)
    requires
        0 <= i <= j < w.len(),
        items.len() >= 1,
        j == i + spec_encode_items(items).len(),
        w.subrange(i, j) == spec_encode_items(items),
        w[j] == ']',
    ensures
        spec_parse_array_items(w, i) == Some((items, j + 1)),
    decreases items.len(),
{
    let q = spec_quote(items[0]);
    let enc = spec_encode_items(items);
    assert(w[i] == '"') by {
        assert(w.subrange(i, j)[0] == enc[0]);
        assert(enc[0] == q[0]);
    }
    if items.len() == 1 {
        assert(enc == q);
        assert(w[j - 1] == '"') by {
            assert(w.subrange(i, j)[j - 1 - i] == q[q.len() - 1]);
        }
        assert(w.subrange(i + 1, j - 1) =~= spec_escape(items[0])) by {
            assert forall|t: int| 0 <= t < j - i - 2 implies w.subrange(i + 1, j - 1)[t]
                == spec_escape(items[0])[t] by {
                assert(w.subrange(i, j)[t + 1] == q[t + 1]);
            }
        }
        lemma_parse_escaped_at(w, i + 1, items[0], j - 1);
        let p = spec_parse_string_body(w, i + 1).unwrap();
        assert(p.1 == j);
        lemma_skip_ws_stay(w, j);
        assert(seq![items[0]] =~= items);
    } else {
        let rest = items.subrange(1, items.len() as int);
        assert(enc == q + seq![','] + spec_encode_items(rest));
        let m = i + q.len() + 1;
        assert(w[m - 1] == ',') by {
            assert(w.subrange(i, j)[q.len() as int] == enc[q.len() as int]);
        }
        assert(w[i + q.len() - 1] == '"') by {
            assert(w.subrange(i, j)[q.len() - 1] == q[q.len() - 1]);
        }
        assert(w.subrange(i + 1, i + q.len() - 1) =~= spec_escape(items[0])) by {
            assert forall|t: int| 0 <= t < q.len() - 2 implies w.subrange(i + 1, i + q.len() - 1)[t]
                == spec_escape(items[0])[t] by {
                assert(w.subrange(i, j)[t + 1] == q[t + 1]);
            }
        }
        lemma_parse_escaped_at(w, i + 1, items[0], i + q.len() - 1);
        let p = spec_parse_string_body(w, i + 1).unwrap();
        assert(p.1 == m - 1);
        lemma_skip_ws_stay(w, m - 1);
        assert(w.subrange(m, j) =~= spec_encode_items(rest)) by {
            assert forall|t: int| 0 <= t < j - m implies w.subrange(m, j)[t]
                == spec_encode_items(rest)[t] by {
                assert(w.subrange(i, j)[q.len() + 1 + t] == enc[q.len() + 1 + t]);
            }
        }
        assert(w[m] == '"') by {
            assert(spec_encode_items(rest)[0] == spec_quote(rest[0])[0]);
            assert(w.subrange(m, j)[0] == spec_encode_items(rest)[0]);
        }
        lemma_skip_ws_stay(w, m);
        lemma_items_round_trip(w, m, rest, j);
        assert(seq![items[0]] + rest =~= items);
    }
}

proof fn lemma_opt_array_round_trip(w: Seq<char>, i: int, oa: Option<Seq<Seq<char>>>, j: int)
    requires
        0 <= i <= j < w.len(),
        j == i + spec_encode_opt_array(oa).len(),
        w.subrange(i, j) == spec_encode_opt_array(oa),
    ensures
        spec_parse_opt_array(w, i) == Some((oa, j)),
{
    reveal_strlit("null");
    match oa {
        None => {
            assert(lit_at(w, i, "null"@));
        },
        Some(a) => {
            let enc = spec_encode_opt_array(oa);
            assert(w[i] == '[') by {
                assert(w.subrange(i, j)[0] == enc[0]);
            }
            assert(!lit_at(w, i, "null"@)) by {
                if lit_at(w, i, "null"@) {
                    assert(w.subrange(i, i + 4)[0] == 'n');
                }
            }
            assert(w[j - 1] == ']') by {
                assert(w.subrange(i, j)[j - 1 - i] == enc[enc.len() - 1]);
            }
            if a.len() == 0 {
                assert(spec_encode_items(a).len() == 0);
                assert(j == i + 2);
                lemma_skip_ws_stay(w, i + 1);
                assert(spec_parse_array(w, i) == Some((Seq::<Seq<char>>::empty(), j)));
                assert(Seq::<Seq<char>>::empty() =~= a);
            } else {
                assert(w.subrange(i + 1, j - 1) =~= spec_encode_items(a)) by {
                    assert forall|t: int| 0 <= t < j - i - 2 implies w.subrange(i + 1, j - 1)[t]
                        == spec_encode_items(a)[t] by {
                        assert(w.subrange(i, j)[t + 1] == enc[t + 1]);
                    }
                }
                assert(w[i + 1] == '"') by {
                    assert(spec_encode_items(a)[0] == spec_quote(a[0])[0]);
                    assert(w.subrange(i + 1, j - 1)[0] == spec_encode_items(a)[0]);
                }
                lemma_skip_ws_stay(w, i + 1);
                lemma_items_round_trip(w, i + 1, a, j - 1);
            }
        },
    }
}

/// Round trip of the codec: the canonical serialized form of any envelope
/// whose discriminator-selected field is present decodes back to exactly
/// that envelope.
#[verifier::rlimit(60)]
pub proof fn lemma_encode_decode_round_trip(e: EnvelopeView)
    requires
        e.message_type == MsgTypes::Users ==> e.data_array is Some,
        e.message_type == MsgTypes::Register || e.message_type == MsgTypes::Message
            ==> e.data is Some,
    ensures
        spec_decode(spec_encode(e)) == Ok::<EnvelopeView, DecodeError>(e),
{
    reveal_strlit("{\"messageType\":");
    reveal_strlit("\"messageType\"");
    reveal_strlit(",\"dataArray\":");
    reveal_strlit("\"dataArray\"");
    reveal_strlit(",\"data\":");
    reveal_strlit("\"data\"");
    reveal_strlit("}");
    reveal_strlit("users");
    reveal_strlit("register");
    reveal_strlit("message");
    let l1 = "{\"messageType\":"@;
    let l2 = ",\"dataArray\":"@;
    let l3 = ",\"data\":"@;
    let l4 = "}"@;
    let tok = spec_kind_token(e.message_type);
    let qa = spec_quote(tok);
    let ea = spec_encode_opt_array(e.data_array);
    let ed = spec_encode_opt_string(e.data);
    let w = spec_encode(e);
    assert(w == l1 + qa + l2 + ea + l3 + ed + l4);
    let pa = l1.len() as int;
    let pb = pa + qa.len() as int;
    let pc = pb + l2.len() as int;
    let pd = pc + ea.len() as int;
    let pe = pd + l3.len() as int;
    let pf = pe + ed.len() as int;
    assert(w.len() == pf + 1);
    assert(forall|t: int| 0 <= t < pa ==> w[t] == l1[t]);
    assert(forall|t: int| pa <= t < pb ==> w[t] == qa[t - pa]);
    assert(forall|t: int| pb <= t < pc ==> w[t] == l2[t - pb]);
    assert(forall|t: int| pc <= t < pd ==> w[t] == ea[t - pc]);
    assert(forall|t: int| pd <= t < pe ==> w[t] == l3[t - pd]);
    assert(forall|t: int| pe <= t < pf ==> w[t] == ed[t - pe]);
    assert(w[pf] == '}');

    // "{", then the key "messageType", then ":".
    lemma_skip_ws_stay(w, 0);
    assert(w[0] == '{');
    lemma_skip_ws_stay(w, 1);
    assert(lit_at(w, 1, "\"messageType\""@)) by {
        assert(w.subrange(1, 14) =~= "\"messageType\""@);
    }
    lemma_skip_ws_stay(w, 14);
    assert(w[14] == ':');
    lemma_skip_ws_stay(w, 15);
    assert(15 == pa);

    // The quoted discriminator token.
    assert(w[pa] == '"');
    assert(w[pb - 1] == '"');
    assert(w.subrange(pa + 1, pb - 1) =~= spec_escape(tok)) by {
        assert forall|t: int| 0 <= t < qa.len() - 2 implies w.subrange(pa + 1, pb - 1)[t]
            == spec_escape(tok)[t] by {
            assert(w[pa + 1 + t] == qa[1 + t]);
        }
    }
    lemma_parse_escaped_at(w, pa + 1, tok, pb - 1);
    assert(spec_parse_string_body(w, pa + 1) == Some((tok, pb)));

    // ",", the key "dataArray", ":", then the array value.
    assert(w[pb] == ',');
    lemma_skip_ws_stay(w, pb);
    lemma_skip_ws_stay(w, pb + 1);
    assert(lit_at(w, pb + 1, "\"dataArray\""@)) by {
        assert(w.subrange(pb + 1, pb + 12) =~= "\"dataArray\""@);
    }
    lemma_skip_ws_stay(w, pb + 12);
    assert(w[pb + 12] == ':');
    assert(pb + 13 == pc);
    assert(ea.len() > 0) by {
        match e.data_array {
            None => {
                assert(ea == "null"@);
                reveal_strlit("null");
            },
            Some(a) => {
            },
        }
    }
    assert(w[pc] == ea[0]);
    assert(!is_json_ws(w[pc])) by {
        match e.data_array {
            None => {
                reveal_strlit("null");
                assert(ea[0] == 'n');
            },
            Some(a) => {
                assert(ea[0] == '[');
            },
        }
    }
    lemma_skip_ws_stay(w, pc);
    assert(w.subrange(pc, pd) =~= ea);
    lemma_opt_array_round_trip(w, pc, e.data_array, pd);

    // ",", the key "data", ":", then the string value.
    assert(w[pd] == ',');
    lemma_skip_ws_stay(w, pd);
    lemma_skip_ws_stay(w, pd + 1);
    assert(lit_at(w, pd + 1, "\"data\""@)) by {
        assert(w.subrange(pd + 1, pd + 7) =~= "\"data\""@);
    }
    lemma_skip_ws_stay(w, pd + 7);
    assert(w[pd + 7] == ':');
    assert(pd + 8 == pe);
    assert(ed.len() > 0) by {
        match e.data {
            None => {
                assert(ed == "null"@);
                reveal_strlit("null");
            },
            Some(d) => {
            },
        }
    }
    assert(!is_json_ws(w[pe])) by {
        match e.data {
            None => {
                reveal_strlit("null");
                assert(ed[0] == 'n');
            },
            Some(d) => {
                assert(ed[0] == '"');
            },
        }
    }
    lemma_skip_ws_stay(w, pe);
    assert(w.subrange(pe, pf) =~= ed);
    lemma_opt_string_round_trip(w, pe, e.data, pf);

    // "}", then the end of the input.
    lemma_skip_ws_stay(w, pf);
    lemma_skip_ws_stay(w, pf + 1);
    assert(spec_parse_envelope(w) == Some(
        RawEnvelope { kind_token: tok, data_array: e.data_array, data: e.data },
    ));

    // The token maps back to the discriminator it encodes.
    assert("users"@.len() == 5 && "register"@.len() == 8 && "message"@.len() == 7);
    assert(spec_kind_of_token(tok) == Some(e.message_type));
}

} // verus!
