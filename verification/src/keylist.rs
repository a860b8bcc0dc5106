//! The structured key-list encoding: a JSON-style array of key records,
//! each an object with string members `id`, `value`, `provider` and a
//! numeric member `weight`. The grammar accepted here is:
//!
//! - a list is `[` `]` or `[` object (`,` object)* `]`;
//! - an object is `{` member (`,` member)* `}`;
//! - a member is a string, `:`, then a string or an unsigned integer;
//! - strings are double-quoted; the escapes `\"`, `\\`, `\/`, `\n`, `\t`,
//!   `\r`, `\b` and `\f` are decoded; raw control characters are rejected;
//! - integers have no sign, no fraction and no leading zero;
//! - ASCII whitespace may stand between tokens.
//!
//! Unknown members are ignored; a missing or repeated known member, or a
//! known member of the wrong type, makes the record malformed, as does a
//! `weight` above the 32-bit range.

use vstd::prelude::*;
use vstd::string::StrSliceExecFns;
use vstd::string::StringExecFns;
use crate::config::{kviews, KeyConfig, KeyModel};
use crate::errors::GatekeeperError;
use crate::text::{all_digits, digits_val, is_digit, is_space, chars_to_string, chars_eq_str};

verus! {

// ---------------------------------------------------------------------------
// Tokens
// ---------------------------------------------------------------------------

/// Spec-level token of the structured encoding.
pub enum TokM {
    LBrack,
    RBrack,
    LBrace,
    RBrace,
    Colon,
    Comma,
    StrT(Seq<char>),
    NumT(Seq<char>),
}

/// Executable token; string and number tokens carry their decoded content
/// and digit run.
pub enum Tok {
    LBrack,
    RBrack,
    LBrace,
    RBrace,
    Colon,
    Comma,
    StrT(Vec<char>),
    NumT(Vec<char>),
}

impl View for Tok {
    type V = TokM;

    open spec fn view(&self) -> TokM {
        match self {
            Tok::LBrack => TokM::LBrack,
            Tok::RBrack => TokM::RBrack,
            Tok::LBrace => TokM::LBrace,
            Tok::RBrace => TokM::RBrace,
            Tok::Colon => TokM::Colon,
            Tok::Comma => TokM::Comma,
            Tok::StrT(v) => TokM::StrT(v@),
            Tok::NumT(v) => TokM::NumT(v@),
        }
    }
}

/// The spec tokens of a token vector.
pub open spec fn toks_view(ts: Seq<Tok>) -> Seq<TokM> {
    ts.map_values(|t: Tok| t@)
}

/// A number token carries a non-empty digit run; every other token is
/// unconstrained. The tokenizer establishes this for all its tokens.
pub open spec fn wf_tok(t: TokM) -> bool {
    match t {
        TokM::NumT(d) => all_digits(d) && d.len() > 0,
        _ => true,
    }
}

/// All tokens of a stream are well formed.
pub open spec fn wf_toks(ts: Seq<TokM>) -> bool {
    forall|i: int| 0 <= i < ts.len() ==> wf_tok(#[trigger] ts[i])
}

// ---------------------------------------------------------------------------
// Spec tokenizer
// ---------------------------------------------------------------------------

/// The character an escape letter decodes to, if the escape is accepted.
pub open spec fn esc_char(c: char) -> Option<char> {
    if c == '"' {
        Some('"')
    } else if c == '\\' {
        Some('\\')
    } else if c == '/' {
        Some('/')
    } else if c == 'n' {
        Some('\n')
    } else if c == 't' {
        Some('\t')
    } else if c == 'r' {
        Some('\r')
    } else if c == 'b' {
        Some('\u{0008}')
    } else if c == 'f' {
        Some('\u{000C}')
    } else {
        None
    }
}

/// Scans a quoted string's remainder from `i` (just past the opening
/// quote): the decoded content and the index past the closing quote.
pub open spec fn sp_str(s: Seq<char>, i: int) -> Option<(Seq<char>, int)>
    decreases s.len() - i,
{
    if i < s.len() {
        let c = s[i];
        if c == '"' {
            Some((Seq::empty(), i + 1))
        } else if c == '\\' {
            if i + 1 < s.len() {
                match esc_char(s[i + 1]) {
                    Some(d) => match sp_str(s, i + 2) {
                        Some(p) => Some((seq![d] + p.0, p.1)),
                        None => None,
                    },
                    None => None,
                }
            } else {
                None
            }
        } else if (c as u32) < 32 {
            None
        } else {
            match sp_str(s, i + 1) {
                Some(p) => Some((seq![c] + p.0, p.1)),
                None => None,
            }
        }
    } else {
        None
    }
}

/// A scanned string ends strictly past where it began and inside the input.
pub proof fn lemma_sp_str_bounds(s: Seq<char>, i: int)
    ensures
        sp_str(s, i) matches Some(p) ==> i + 1 <= p.1 <= s.len(),
    decreases s.len() - i,
{
    if i < s.len() {
        if s[i] == '"' {
        } else if s[i] == '\\' {
            if i + 1 < s.len() {
                lemma_sp_str_bounds(s, i + 2);
            }
        } else {
            lemma_sp_str_bounds(s, i + 1);
        }
    }
}

/// The index just past the digit run starting at `i`.
pub open spec fn sp_digits_end(s: Seq<char>, i: int) -> int
    decreases s.len() - i,
{
    if i < s.len() && is_digit(s[i]) {
        sp_digits_end(s, i + 1)
    } else {
        i
    }
}

/// The digit run stays inside the input and moves forward.
pub proof fn lemma_sp_digits_end_bounds(s: Seq<char>, i: int)
    ensures
        i <= sp_digits_end(s, i),
        i <= s.len() ==> sp_digits_end(s, i) <= s.len(),
    decreases s.len() - i,
{
    if i < s.len() && is_digit(s[i]) {
        lemma_sp_digits_end_bounds(s, i + 1);
    }
}

/// Prepends a token to a tokenization outcome.
pub open spec fn sp_cons(t: TokM, rest: Option<Seq<TokM>>) -> Option<Seq<TokM>> {
    match rest {
        Some(r) => Some(seq![t] + r),
        None => None,
    }
}

/// Tokenizes the input from `i`: `None` on a character no token can start
/// with, an unterminated string, a bad escape, or a leading zero.
pub open spec fn sp_tokens(s: Seq<char>, i: int) -> Option<Seq<TokM>>
    decreases s.len() - i
    via sp_tokens_dec
{
    if i >= s.len() {
        Some(Seq::empty())
    } else {
        let c = s[i];
        if is_space(c) {
            sp_tokens(s, i + 1)
        } else if c == '[' {
            sp_cons(TokM::LBrack, sp_tokens(s, i + 1))
        } else if c == ']' {
            sp_cons(TokM::RBrack, sp_tokens(s, i + 1))
        } else if c == '{' {
            sp_cons(TokM::LBrace, sp_tokens(s, i + 1))
        } else if c == '}' {
            sp_cons(TokM::RBrace, sp_tokens(s, i + 1))
        } else if c == ':' {
            sp_cons(TokM::Colon, sp_tokens(s, i + 1))
        } else if c == ',' {
            sp_cons(TokM::Comma, sp_tokens(s, i + 1))
        } else if c == '"' {
            match sp_str(s, i + 1) {
                Some(p) => sp_cons(TokM::StrT(p.0), sp_tokens(s, p.1)),
                None => None,
            }
        } else if is_digit(c) {
            let e = sp_digits_end(s, i);
            if e - i > 1 && c == '0' {
                None
            } else {
                sp_cons(TokM::NumT(s.subrange(i, e)), sp_tokens(s, e))
            }
        } else {
            None
        }
    }
}

#[via_fn]
proof fn sp_tokens_dec(s: Seq<char>, i: int) {
    if i < s.len() {
        if s[i] == '"' {
            lemma_sp_str_bounds(s, i + 1);
        }
        if is_digit(s[i]) {
            lemma_sp_digits_end_bounds(s, i + 1);
        }
    }
}

// ---------------------------------------------------------------------------
// Spec grammar over tokens
// ---------------------------------------------------------------------------

/// The member name `id`.
pub open spec fn lit_id() -> Seq<char> {
    seq!['i', 'd']
}

/// The member name `value`.
pub open spec fn lit_value() -> Seq<char> {
    seq!['v', 'a', 'l', 'u', 'e']
}

/// The member name `provider`.
pub open spec fn lit_provider() -> Seq<char> {
    seq!['p', 'r', 'o', 'v', 'i', 'd', 'e', 'r']
}

/// The member name `weight`.
pub open spec fn lit_weight() -> Seq<char> {
    seq!['w', 'e', 'i', 'g', 'h', 't']
}

/// A token that can stand as a member's value.
pub open spec fn is_value_tok(t: TokM) -> bool {
    t is StrT || t is NumT
}

/// The record members collected so far while reading one object.
#[verifier::ext_equal]
pub struct FieldsM {
    pub id: Option<Seq<char>>,
    pub value: Option<Seq<char>>,
    pub provider: Option<Seq<char>>,
    pub weight: Option<u32>,
}

/// No members read yet.
pub open spec fn empty_fields() -> FieldsM {
    FieldsM { id: None, value: None, provider: None, weight: None }
}

/// Applies one member to the collected fields: a known name must not repeat
/// and must carry the right kind of value; unknown names are ignored.
pub open spec fn apply_field(f: FieldsM, name: Seq<char>, v: TokM) -> Option<FieldsM> {
    if name == lit_id() {
        match v {
            TokM::StrT(s) => if f.id is None {
                Some(FieldsM { id: Some(s), value: f.value, provider: f.provider, weight: f.weight })
            } else {
                None
            },
            _ => None,
        }
    } else if name == lit_value() {
        match v {
            TokM::StrT(s) => if f.value is None {
                Some(FieldsM { id: f.id, value: Some(s), provider: f.provider, weight: f.weight })
            } else {
                None
            },
            _ => None,
        }
    } else if name == lit_provider() {
        match v {
            TokM::StrT(s) => if f.provider is None {
                Some(FieldsM { id: f.id, value: f.value, provider: Some(s), weight: f.weight })
            } else {
                None
            },
            _ => None,
        }
    } else if name == lit_weight() {
        match v {
            TokM::NumT(d) => if f.weight is None && digits_val(d) <= u32::MAX {
                Some(
                    FieldsM {
                        id: f.id,
                        value: f.value,
                        provider: f.provider,
                        weight: Some(digits_val(d) as u32),
                    },
                )
            } else {
                None
            },
            _ => None,
        }
    } else {
        Some(f)
    }
}

/// Reads the members of one object from `i` (just past `{`), ending just
/// past the closing `}`.
pub open spec fn sp_fields(ts: Seq<TokM>, i: int, f: FieldsM) -> Option<(FieldsM, int)>
    decreases ts.len() - i,
{
    if i + 3 <= ts.len() {
        match ts[i] {
            TokM::StrT(name) => if ts[i + 1] == TokM::Colon && is_value_tok(ts[i + 2]) {
                match apply_field(f, name, ts[i + 2]) {
                    Some(f2) => if i + 3 < ts.len() && ts[i + 3] == TokM::Comma {
                        sp_fields(ts, i + 4, f2)
                    } else if i + 3 < ts.len() && ts[i + 3] == TokM::RBrace {
                        Some((f2, i + 4))
                    } else {
                        None
                    },
                    None => None,
                }
            } else {
                None
            },
            _ => None,
        }
    } else {
        None
    }
}

/// Reading members moves forward and stays inside the token stream.
pub proof fn lemma_sp_fields_bounds(ts: Seq<TokM>, i: int, f: FieldsM)
    ensures
        sp_fields(ts, i, f) matches Some(p) ==> i + 4 <= p.1 <= ts.len(),
    decreases ts.len() - i,
{
    if i + 3 <= ts.len() {
        match ts[i] {
            TokM::StrT(name) => {
                if ts[i + 1] == TokM::Colon && is_value_tok(ts[i + 2]) {
                    match apply_field(f, name, ts[i + 2]) {
                        Some(f2) => {
                            if i + 3 < ts.len() && ts[i + 3] == TokM::Comma {
                                lemma_sp_fields_bounds(ts, i + 4, f2);
                            }
                        },
                        None => {},
                    }
                }
            },
            _ => {},
        }
    }
}

/// The key record the collected fields describe, if all four are present.
pub open spec fn fields_to_key(f: FieldsM) -> Option<KeyModel> {
    match (f.id, f.value, f.provider, f.weight) {
        (Some(id), Some(value), Some(provider), Some(weight)) => Some(
            KeyModel { id, value, provider, weight },
        ),
        _ => None,
    }
}

/// Reads one object at `i`, ending just past its closing `}`.
pub open spec fn sp_object(ts: Seq<TokM>, i: int) -> Option<(KeyModel, int)> {
    if i < ts.len() && ts[i] == TokM::LBrace {
        match sp_fields(ts, i + 1, empty_fields()) {
            Some(p) => match fields_to_key(p.0) {
                Some(k) => Some((k, p.1)),
                None => None,
            },
            None => None,
        }
    } else {
        None
    }
}

/// Reading one object moves forward and stays inside the token stream.
pub proof fn lemma_sp_object_bounds(ts: Seq<TokM>, i: int)
    ensures
        sp_object(ts, i) matches Some(p) ==> i + 5 <= p.1 <= ts.len(),
{
    if i < ts.len() && ts[i] == TokM::LBrace {
        lemma_sp_fields_bounds(ts, i + 1, empty_fields());
    }
}

/// Reads the objects of a non-empty list from `i` (just past `[` or a
/// separating comma), ending just past the closing `]`.
pub open spec fn sp_objects(ts: Seq<TokM>, i: int) -> Option<(Seq<KeyModel>, int)>
    decreases ts.len() - i
    via sp_objects_dec
{
    match sp_object(ts, i) {
        Some(p) => if p.1 < ts.len() && ts[p.1] == TokM::Comma {
            match sp_objects(ts, p.1 + 1) {
                Some(q) => Some((seq![p.0] + q.0, q.1)),
                None => None,
            }
        } else if p.1 < ts.len() && ts[p.1] == TokM::RBrack {
            Some((seq![p.0], p.1 + 1))
        } else {
            None
        },
        None => None,
    }
}

#[via_fn]
proof fn sp_objects_dec(ts: Seq<TokM>, i: int) {
    lemma_sp_object_bounds(ts, i);
}

/// Reads a whole token stream as a key list; the stream must be consumed
/// exactly.
pub open spec fn sp_list(ts: Seq<TokM>) -> Option<Seq<KeyModel>> {
    if ts.len() >= 1 && ts[0] == TokM::LBrack {
        if ts.len() >= 2 && ts[1] == TokM::RBrack {
            if ts.len() == 2 {
                Some(Seq::empty())
            } else {
                None
            }
        } else {
            match sp_objects(ts, 1) {
                Some(p) => if p.1 == ts.len() {
                    Some(p.0)
                } else {
                    None
                },
                None => None,
            }
        }
    } else {
        None
    }
}

/// The key records the structured encoding denotes, or `None` where it is
/// malformed.
pub open spec fn sp_keylist(s: Seq<char>) -> Option<Seq<KeyModel>> {
    match sp_tokens(s, 0) {
        Some(ts) => sp_list(ts),
        None => None,
    }
}

// ---------------------------------------------------------------------------
// Executable tokenizer
// ---------------------------------------------------------------------------

fn esc_char_exec(c: char) -> (r: Option<char>)
    ensures
        r == esc_char(c),
{
    if c == '"' {
        Some('"')
    } else if c == '\\' {
        Some('\\')
    } else if c == '/' {
        Some('/')
    } else if c == 'n' {
        Some('\n')
    } else if c == 't' {
        Some('\t')
    } else if c == 'r' {
        Some('\r')
    } else if c == 'b' {
        Some('\u{0008}')
    } else if c == 'f' {
        Some('\u{000C}')
    } else {
        None
    }
}

/// Scans a quoted string's remainder, mirroring `sp_str`.
fn scan_string(s: &str, start: usize) -> (r: Option<(Vec<char>, usize)>)
    requires
        start <= s@.len(),
    ensures
        match sp_str(s@, start as int) {
            Some(p) => r matches Some(q) && q.0@ == p.0 && q.1 == p.1 && start < q.1 <= s@.len(),
            None => r is None,
        },
{
    proof {
        lemma_sp_str_bounds(s@, start as int);
    }
    let n = s.unicode_len();
    let mut acc: Vec<char> = Vec::new();
    let mut j: usize = start;
    while j < n
        invariant
            n == s@.len(),
            start <= j <= n,
            match sp_str(s@, j as int) {
                Some(p) => sp_str(s@, start as int) == Some((acc@ + p.0, p.1)),
                None => sp_str(s@, start as int) is None,
            },
        decreases n - j,
    {
        let c = s.get_char(j);
        if c == '"' {
            proof {
                assert(sp_str(s@, j as int) == Some((Seq::<char>::empty(), j + 1)));
                assert(acc@ + Seq::<char>::empty() =~= acc@);
            }
            return Some((acc, j + 1));
        } else if c == '\\' {
            if j + 1 < n {
                match esc_char_exec(s.get_char(j + 1)) {
                    Some(d) => {
                        let ghost pre = acc@;
                        acc.push(d);
                        proof {
                            match sp_str(s@, j as int + 2) {
                                Some(p) => {
                                    assert(pre + (seq![d] + p.0) =~= acc@ + p.0);
                                },
                                None => {},
                            }
                        }
                        j = j + 2;
                    },
                    None => {
                        return None;
                    },
                }
            } else {
                return None;
            }
        } else if (c as u32) < 32 {
            return None;
        } else {
            let ghost pre = acc@;
            acc.push(c);
            proof {
                match sp_str(s@, j as int + 1) {
                    Some(p) => {
                        assert(pre + (seq![c] + p.0) =~= acc@ + p.0);
                    },
                    None => {},
                }
            }
            j = j + 1;
        }
    }
    None
}

fn char_is_digit(c: char) -> (b: bool)
    ensures
        b == is_digit(c),
{
    let v: u32 = c as u32;
    48 <= v && v <= 57
}

/// Tokenizes the whole input, mirroring `sp_tokens`.
fn tokenize(s: &str) -> (r: Option<Vec<Tok>>)
    ensures
        match sp_tokens(s@, 0) {
            Some(tm) => r matches Some(ts) && toks_view(ts@) == tm && wf_toks(toks_view(ts@)),
            None => r is None,
        },
{
    let n = s.unicode_len();
    let mut out: Vec<Tok> = Vec::new();
    let mut i: usize = 0;
    while i < n
        invariant
            n == s@.len(),
            i <= n,
            wf_toks(toks_view(out@)),
            match sp_tokens(s@, i as int) {
                Some(rest) => sp_tokens(s@, 0) == Some(toks_view(out@) + rest),
                None => sp_tokens(s@, 0) is None,
            },
        decreases n - i,
    {
        let ghost pre = out@;
        let c = s.get_char(i);
        if c == ' ' || c == '\t' || c == '\n' || c == '\r' {
            i = i + 1;
        } else if c == '[' {
            out.push(Tok::LBrack);
            proof {
                lemma_push_token(s@, i as int, i as int + 1, pre, Tok::LBrack);
            }
            i = i + 1;
        } else if c == ']' {
            out.push(Tok::RBrack);
            proof {
                lemma_push_token(s@, i as int, i as int + 1, pre, Tok::RBrack);
            }
            i = i + 1;
        } else if c == '{' {
            out.push(Tok::LBrace);
            proof {
                lemma_push_token(s@, i as int, i as int + 1, pre, Tok::LBrace);
            }
            i = i + 1;
        } else if c == '}' {
            out.push(Tok::RBrace);
            proof {
                lemma_push_token(s@, i as int, i as int + 1, pre, Tok::RBrace);
            }
            i = i + 1;
        } else if c == ':' {
            out.push(Tok::Colon);
            proof {
                lemma_push_token(s@, i as int, i as int + 1, pre, Tok::Colon);
            }
            i = i + 1;
        } else if c == ',' {
            out.push(Tok::Comma);
            proof {
                lemma_push_token(s@, i as int, i as int + 1, pre, Tok::Comma);
            }
            i = i + 1;
        } else if c == '"' {
            match scan_string(s, i + 1) {
                Some((content, j)) => {
                    let t = Tok::StrT(content);
                    let ghost jj = j as int;
                    out.push(t);
                    proof {
                        lemma_push_token(s@, i as int, jj, pre, out@[out@.len() - 1]);
                    }
                    i = j;
                },
                None => {
                    return None;
                },
            }
        } else if char_is_digit(c) {
            let start_d = i;
            let mut digits: Vec<char> = Vec::new();
            let mut j: usize = i;
            while j < n && char_is_digit(s.get_char(j))
                invariant
                    n == s@.len(),
                    start_d <= j <= n,
                    digits@ =~= s@.subrange(start_d as int, j as int),
                    forall|q: int| start_d <= q < j ==> is_digit(#[trigger] s@[q]),
                    sp_digits_end(s@, start_d as int) == sp_digits_end(s@, j as int),
                decreases n - j,
            {
                digits.push(s.get_char(j));
                assert(digits@ =~= s@.subrange(start_d as int, j as int + 1));
                j = j + 1;
            }
            assert(sp_digits_end(s@, j as int) == j);
            let e = j;
            proof {
                // the run is non-empty: its first character is a digit
                lemma_sp_digits_end_bounds(s@, start_d as int + 1);
                assert(e > start_d);
                assert forall|q: int| 0 <= q < digits@.len() implies is_digit(
                    #[trigger] digits@[q],
                ) by {
                    assert(digits@[q] == s@[start_d + q]);
                }
                assert(all_digits(digits@));
            }
            if digits.len() > 1 && digits[0] == '0' {
                assert(s@[start_d as int] == '0');
                assert(sp_tokens(s@, i as int) is None);
                return None;
            }
            let t = Tok::NumT(digits);
            let ghost ee = e as int;
            out.push(t);
            proof {
                assert(out@[out@.len() - 1]@ == TokM::NumT(s@.subrange(i as int, ee)));
                lemma_push_token(s@, i as int, ee, pre, out@[out@.len() - 1]);
            }
            i = e;
        } else {
            return None;
        }
    }
    proof {
        assert(toks_view(out@) + Seq::<TokM>::empty() =~= toks_view(out@));
    }
    Some(out)
}

/// One tokenizer step: where the spec tokenizer produces token `t@` at `i`
/// and continues at `j`, appending `t` keeps the loop relation and the
/// tokens' well-formedness.
proof fn lemma_push_token(s: Seq<char>, i: int, j: int, pre: Seq<Tok>, t: Tok)
    requires
        sp_tokens(s, i) == sp_cons(t@, sp_tokens(s, j)),
        match sp_tokens(s, i) {
            Some(rest) => sp_tokens(s, 0) == Some(toks_view(pre) + rest),
            None => sp_tokens(s, 0) is None,
        },
        wf_toks(toks_view(pre)),
        wf_tok(t@),
    ensures
        match sp_tokens(s, j) {
            Some(rest) => sp_tokens(s, 0) == Some(toks_view(pre.push(t)) + rest),
            None => sp_tokens(s, 0) is None,
        },
        wf_toks(toks_view(pre.push(t))),
{
    assert(toks_view(pre.push(t)) =~= toks_view(pre).push(t@));
    match sp_tokens(s, j) {
        Some(rest) => {
            assert(toks_view(pre) + (seq![t@] + rest) =~= toks_view(pre.push(t)) + rest);
        },
        None => {},
    }
}

// ---------------------------------------------------------------------------
// Executable grammar
// ---------------------------------------------------------------------------

/// Converts a digit run to its 32-bit value, or reports it out of range.
fn digits_to_u32(d: &Vec<char>) -> (r: Option<u32>)
    requires
        all_digits(d@),
        d@.len() > 0,
    ensures
        match r {
            Some(w) => digits_val(d@) <= u32::MAX && w == digits_val(d@),
            None => digits_val(d@) > u32::MAX,
        },
{
    let n = d.len();
    let mut acc: u32 = 0;
    let mut big = false;
    let mut i: usize = 0;
    while i < n
        invariant
            n == d@.len(),
            i <= n,
            all_digits(d@),
            big ==> digits_val(d@.subrange(0, i as int)) > u32::MAX,
            !big ==> acc == digits_val(d@.subrange(0, i as int)),
        decreases n - i,
    {
        let c = d[i];
        let dv: u32 = (c as u32) - 48;
        let ghost pre = d@.subrange(0, i as int);
        let ghost post = d@.subrange(0, i as int + 1);
        proof {
            assert(post.drop_last() =~= pre);
            assert(post.last() == d@[i as int]);
            assert(digits_val(post) == digits_val(pre) * 10 + dv);
        }
        if !big {
            let limit: u32 = (u32::MAX - dv) / 10;
            proof {
                vstd::arithmetic::div_mod::lemma_fundamental_div_mod((u32::MAX - dv) as int, 10);
            }
            if acc > limit {
                big = true;
                assert(digits_val(post) > u32::MAX);
            } else {
                assert(acc * 10 + dv <= u32::MAX);
                acc = acc * 10 + dv;
            }
        } else {
            assert(digits_val(post) > u32::MAX);
        }
        i += 1;
    }
    proof {
        assert(d@.subrange(0, n as int) =~= d@);
    }
    if big {
        None
    } else {
        Some(acc)
    }
}

/// The collected members of one record while reading it.
struct FieldsAcc {
    id: Option<Vec<char>>,
    value: Option<Vec<char>>,
    provider: Option<Vec<char>>,
    weight: Option<u32>,
}

spec fn opt_chars_view(o: Option<Vec<char>>) -> Option<Seq<char>> {
    match o {
        Some(v) => Some(v@),
        None => None,
    }
}

spec fn facc_view(f: FieldsAcc) -> FieldsM {
    FieldsM {
        id: opt_chars_view(f.id),
        value: opt_chars_view(f.value),
        provider: opt_chars_view(f.provider),
        weight: f.weight,
    }
}

/// Copies a character vector.
fn copy_chars(v: &Vec<char>) -> (r: Vec<char>)
    ensures
        r@ == v@,
{
    let n = v.len();
    let mut r: Vec<char> = Vec::new();
    let mut i: usize = 0;
    while i < n
        invariant
            n == v@.len(),
            i <= n,
            r@ == v@.subrange(0, i as int),
        decreases n - i,
    {
        r.push(v[i]);
        assert(r@ =~= v@.subrange(0, i as int + 1));
        i += 1;
    }
    assert(r@ =~= v@);
    r
}

/// Reads one object at `start`, mirroring `sp_object`.
fn parse_object(ts: &Vec<Tok>, start: usize) -> (r: Option<(KeyConfig, usize)>)
    requires
        wf_toks(toks_view(ts@)),
    ensures
        match sp_object(toks_view(ts@), start as int) {
            Some(p) => r matches Some(q) && q.0@ == p.0 && q.1 == p.1 && start < q.1 <= ts@.len(),
            None => r is None,
        },
{
    let ghost tsm = toks_view(ts@);
    proof {
        lemma_sp_object_bounds(tsm, start as int);
    }
    let n = ts.len();
    if start >= n {
        return None;
    }
    match &ts[start] {
        Tok::LBrace => {},
        _ => {
            return None;
        },
    }
    let mut f = FieldsAcc { id: None, value: None, provider: None, weight: None };
    let mut i: usize = start + 1;
    loop
        invariant
            n == ts@.len(),
            tsm == toks_view(ts@),
            wf_toks(tsm),
            start + 1 <= i <= n,
            sp_fields(tsm, start as int + 1, empty_fields()) == sp_fields(
                tsm,
                i as int,
                facc_view(f),
            ),
            sp_object(tsm, start as int) == (match sp_fields(tsm, start as int + 1, empty_fields()) {
                Some(p) => match fields_to_key(p.0) {
                    Some(k) => Some((k, p.1)),
                    None => None::<(KeyModel, int)>,
                },
                None => None::<(KeyModel, int)>,
            }),
        decreases n - i,
    {
        if n - i < 3 {
            return None;
        }
        proof {
            assert(tsm[i as int] == ts@[i as int]@);
            assert(tsm[i as int + 1] == ts@[i as int + 1]@);
            assert(tsm[i as int + 2] == ts@[i as int + 2]@);
        }
        let name: &Vec<char> = match &ts[i] {
            Tok::StrT(v) => v,
            _ => {
                return None;
            },
        };
        match &ts[i + 1] {
            Tok::Colon => {},
            _ => {
                return None;
            },
        }
        // apply the member to the collected fields
        let ghost f_pre = facc_view(f);
        let ghost name_m = name@;
        let ghost val_tok = tsm[i as int + 2];
        if chars_eq_str(name, "id") {
            proof {
                reveal_strlit("id");
                assert("id"@ =~= lit_id());
            }
            match &ts[i + 2] {
                Tok::StrT(v) => {
                    if f.id.is_none() {
                        f.id = Some(copy_chars(v));
                    } else {
                        return None;
                    }
                },
                _ => {
                    return None;
                },
            }
        } else if chars_eq_str(name, "value") {
            proof {
                reveal_strlit("value");
                assert("value"@ =~= lit_value());
            }
            match &ts[i + 2] {
                Tok::StrT(v) => {
                    if f.value.is_none() {
                        f.value = Some(copy_chars(v));
                    } else {
                        return None;
                    }
                },
                _ => {
                    return None;
                },
            }
        } else if chars_eq_str(name, "provider") {
            proof {
                reveal_strlit("provider");
                assert("provider"@ =~= lit_provider());
            }
            match &ts[i + 2] {
                Tok::StrT(v) => {
                    if f.provider.is_none() {
                        f.provider = Some(copy_chars(v));
                    } else {
                        return None;
                    }
                },
                _ => {
                    return None;
                },
            }
        } else if chars_eq_str(name, "weight") {
            proof {
                reveal_strlit("weight");
                assert("weight"@ =~= lit_weight());
            }
            match &ts[i + 2] {
                Tok::NumT(d) => {
                    if f.weight.is_none() {
                        proof {
                            assert(wf_tok(tsm[i as int + 2]));
                        }
                        match digits_to_u32(d) {
                            Some(w) => {
                                f.weight = Some(w);
                            },
                            None => {
                                return None;
                            },
                        }
                    } else {
                        return None;
                    }
                },
                _ => {
                    return None;
                },
            }
        } else {
            proof {
                reveal_strlit("id");
                reveal_strlit("value");
                reveal_strlit("provider");
                reveal_strlit("weight");
                assert("id"@ =~= lit_id());
                assert("value"@ =~= lit_value());
                assert("provider"@ =~= lit_provider());
                assert("weight"@ =~= lit_weight());
            }
            match &ts[i + 2] {
                Tok::StrT(_) => {},
                Tok::NumT(_) => {},
                _ => {
                    return None;
                },
            }
        }
        proof {
            assert(apply_field(f_pre, name_m, val_tok) == Some(facc_view(f)));
        }
        // separator
        if i + 3 >= n {
            return None;
        }
        proof {
            assert(tsm[i as int + 3] == ts@[i as int + 3]@);
        }
        match &ts[i + 3] {
            Tok::Comma => {
                i = i + 4;
            },
            Tok::RBrace => {
                let j = i + 4;
                proof {
                    assert(sp_fields(tsm, start as int + 1, empty_fields()) == Some(
                        (facc_view(f), j as int),
                    ));
                }
                match (f.id, f.value, f.provider, f.weight) {
                    (Some(id), Some(value), Some(provider), Some(weight)) => {
                        let kc = KeyConfig {
                            id: chars_to_string(&id),
                            value: chars_to_string(&value),
                            provider: chars_to_string(&provider),
                            weight,
                        };
                        return Some((kc, j));
                    },
                    _ => {
                        return None;
                    },
                }
            },
            _ => {
                return None;
            },
        }
    }
}

/// Reads the objects of a non-empty list, mirroring `sp_objects`, then
/// checks that the token stream was consumed exactly, mirroring `sp_list`.
fn parse_tokens(ts: &Vec<Tok>) -> (r: Option<Vec<KeyConfig>>)
    requires
        wf_toks(toks_view(ts@)),
    ensures
        match sp_list(toks_view(ts@)) {
            Some(ks) => r matches Some(v) && kviews(v@) == ks,
            None => r is None,
        },
{
    let ghost tsm = toks_view(ts@);
    let n = ts.len();
    if n == 0 {
        return None;
    }
    proof {
        assert(tsm[0] == ts@[0]@);
    }
    match &ts[0] {
        Tok::LBrack => {},
        _ => {
            return None;
        },
    }
    if n >= 2 {
        proof {
            assert(tsm[1] == ts@[1]@);
        }
        let second_is_close = match &ts[1] {
            Tok::RBrack => true,
            _ => false,
        };
        if second_is_close {
            if n == 2 {
                let empty: Vec<KeyConfig> = Vec::new();
                assert(kviews(empty@) =~= Seq::<KeyModel>::empty());
                return Some(empty);
            } else {
                return None;
            }
        }
    }
    let mut out: Vec<KeyConfig> = Vec::new();
    let mut i: usize = 1;
    loop
        invariant
            n == ts@.len(),
            tsm == toks_view(ts@),
            wf_toks(tsm),
            1 <= i <= n,
            match sp_objects(tsm, i as int) {
                Some(p) => sp_objects(tsm, 1) == Some((kviews(out@) + p.0, p.1)),
                None => sp_objects(tsm, 1) is None,
            },
            sp_list(tsm) == (match sp_objects(tsm, 1) {
                Some(p) => if p.1 == tsm.len() {
                    Some(p.0)
                } else {
                    None::<Seq<KeyModel>>
                },
                None => None::<Seq<KeyModel>>,
            }),
        decreases n - i,
    {
        let ghost pre = out@;
        match parse_object(ts, i) {
            Some((kc, j)) => {
                proof {
                    lemma_sp_object_bounds(tsm, i as int);
                }
                let ghost kcm = kc@;
                out.push(kc);
                proof {
                    assert(kviews(out@) =~= kviews(pre).push(kcm));
                }
                if j < n {
                    proof {
                        assert(tsm[j as int] == ts@[j as int]@);
                    }
                    match &ts[j] {
                        Tok::Comma => {
                            proof {
                                match sp_objects(tsm, j as int + 1) {
                                    Some(q) => {
                                        assert(kviews(pre) + (seq![kcm] + q.0) =~= kviews(out@)
                                            + q.0);
                                    },
                                    None => {},
                                }
                            }
                            i = j + 1;
                        },
                        Tok::RBrack => {
                            proof {
                                assert(sp_objects(tsm, i as int) == Some(
                                    (seq![kcm], j as int + 1),
                                ));
                                assert(kviews(pre) + seq![kcm] =~= kviews(out@));
                            }
                            if j + 1 == n {
                                return Some(out);
                            } else {
                                return None;
                            }
                        },
                        _ => {
                            return None;
                        },
                    }
                } else {
                    return None;
                }
            },
            None => {
                return None;
            },
        }
    }
}

/// Parses the structured key-list encoding into key configurations. The
/// result is `Ok` exactly on the inputs the grammar accepts, with the
/// records in list order; every malformed input is an `InvalidConfig`
/// failure, never a silent fallback.
pub fn parse_keylist(s: &str) -> (r: Result<Vec<KeyConfig>, GatekeeperError>)
    ensures
        match sp_keylist(s@) {
            Some(ks) => r matches Ok(v) && kviews(v@) == ks,
            None => r matches Err(e) && e matches GatekeeperError::InvalidConfig(_),
        },
{
    match tokenize(s) {
        Some(ts) => match parse_tokens(&ts) {
            Some(v) => Ok(v),
            None => Err(
                GatekeeperError::InvalidConfig(
                    String::from_str("invalid structured key list"),
                ),
            ),
        },
        None => Err(
            GatekeeperError::InvalidConfig(String::from_str("invalid structured key list")),
        ),
    }
}

} // verus!
