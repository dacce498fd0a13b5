//! The wire encoding of tasks and workloads: JSON documents of a fixed
//! shape.  A decoder first removes the insignificant whitespace JSON admits
//! between tokens, then holds the document to the grammar stated by the
//! spec-level parsing functions: object members in the order of the wire
//! description — the order a serde-style encoder over the declared records
//! emits them — and that encoder's escape repertoire (the named escapes and
//! `\u00XX` for the remaining control characters; other code points are
//! written directly, never escaped).  Documents with reordered or unknown
//! members are refused.  The executable decoder and encoder are proved to
//! compute exactly those functions.

use vstd::prelude::*;
use vstd::arithmetic::div_mod::lemma_fundamental_div_mod;
use vstd::seq_lib::lemma_concat_associative;
use crate::workflow::{Executor, ExecutorInfo, WorkflowStep, Workflow, ExecutionTask, StepView,
    WorkflowView, ExecutionTaskView};
use crate::error::ExecutorError;
use crate::beam::{AppId, BeamTask, FailureStrategy, Retry, spec_parse_app_id,
    lemma_identity_round_trip};

verus! {

/// Relies on `alloc::string::String::push`: appends exactly the one
/// character to the string.
pub assume_specification[ String::push ](s: &mut String, c: char)
    ensures
        final(s)@ == old(s)@.push(c),
;

// ---------------------------------------------------------------------------
// Literals
// ---------------------------------------------------------------------------
/// The fixed token `lit` occurs at position `i` of `s`; on success the
/// position after it.
pub open spec fn spec_parse_lit(s: Seq<char>, i: int, lit: Seq<char>) -> Option<int> {
    if 0 <= i && i + lit.len() <= s.len() && s.subrange(i, i + lit.len() as int) == lit {
        Some(i + lit.len() as int)
    } else {
        None
    }
}

fn parse_lit(s: &str, i: usize, lit: &str) -> (r: Option<usize>)
    ensures
        match r {
            Some(j) => spec_parse_lit(s@, i as int, lit@) == Some(j as int) && j == i + lit@.len()
                && j <= s@.len(),
            None => spec_parse_lit(s@, i as int, lit@) is None,
        },
{
    let len = s.unicode_len();
    let n = lit.unicode_len();
    if i > len || n > len - i {
        return None;
    }
    let mut k: usize = 0;
    while k < n
        invariant
            k <= n,
            n == lit@.len(),
            len == s@.len(),
            i + n <= len,
            forall|m: int| 0 <= m < k ==> s@[i + m] == lit@[m],
        decreases n - k,
    {
        if s.get_char(i + k) != lit.get_char(k) {
            proof {
                assert(s@.subrange(i as int, i + n as int)[k as int] == s@[i + k]);
            }
            return None;
        }
        k += 1;
    }
    proof {
        assert(s@.subrange(i as int, i + n as int) =~= lit@);
    }
    Some(i + n)
}

// ---------------------------------------------------------------------------
// Strings
// ---------------------------------------------------------------------------
/// The single-character escapes understood inside a string token.
pub open spec fn spec_unescape(c: char) -> Option<char> {
    if c == '"' {
        Some('"')
    } else if c == '\\' {
        Some('\\')
    } else if c == '/' {
        Some('/')
    } else if c == 'n' {
        Some('\n')
    } else if c == 'r' {
        Some('\r')
    } else if c == 't' {
        Some('\t')
    } else if c == 'b' {
        Some('\u{8}')
    } else if c == 'f' {
        Some('\u{c}')
    } else {
        None
    }
}

pub open spec fn is_hex_digit(c: char) -> bool {
    (48 <= c as u32 <= 57) || (97 <= c as u32 <= 102) || (65 <= c as u32 <= 70)
}

pub open spec fn hex_value(c: char) -> u32
    recommends
        is_hex_digit(c),
{
    if c as u32 <= 57 {
        (c as u32 - 48) as u32
    } else if c as u32 >= 97 {
        (c as u32 - 87) as u32
    } else {
        (c as u32 - 55) as u32
    }
}

/// The character written as the escape `\u00XX` — the form a serde-style
/// encoder uses for control characters without a named escape.
pub open spec fn hex_char(h: char, l: char) -> char
    recommends
        is_hex_digit(h),
        is_hex_digit(l),
{
    ((16 * hex_value(h) + hex_value(l)) as u8) as char
}

/// String content from position `i` (just after the opening quote) up to the
/// closing quote: unescaped characters, and the position after the quote.
/// Unescaped control characters and unknown escapes are refused.
pub open spec fn spec_parse_string_body(s: Seq<char>, i: int) -> Option<(Seq<char>, int)>
    decreases s.len() - i,
{
    if i < 0 || i >= s.len() {
        None
    } else if s[i] == '"' {
        Some((Seq::empty(), i + 1))
    } else if s[i] == '\\' {
        if i + 1 < s.len() {
            if s[i + 1] == 'u' {
                if i + 5 < s.len() && s[i + 2] == '0' && s[i + 3] == '0' && is_hex_digit(s[i + 4])
                    && is_hex_digit(s[i + 5]) {
                    match spec_parse_string_body(s, i + 6) {
                        Some((t, j)) => Some((seq![hex_char(s[i + 4], s[i + 5])] + t, j)),
                        None => None,
                    }
                } else {
                    None
                }
            } else {
                match spec_unescape(s[i + 1]) {
                    Some(u) => match spec_parse_string_body(s, i + 2) {
                        Some((t, j)) => Some((seq![u] + t, j)),
                        None => None,
                    },
                    None => None,
                }
            }
        } else {
            None
        }
    } else if (s[i] as u32) < 32 {
        None
    } else {
        match spec_parse_string_body(s, i + 1) {
            Some((t, j)) => Some((seq![s[i]] + t, j)),
            None => None,
        }
    }
}

/// A quoted string token at position `i`: its unescaped content and the
/// position after the closing quote.
pub open spec fn spec_parse_string(s: Seq<char>, i: int) -> Option<(Seq<char>, int)> {
    if 0 <= i < s.len() && s[i] == '"' {
        spec_parse_string_body(s, i + 1)
    } else {
        None
    }
}

proof fn lemma_string_body_advances(s: Seq<char>, i: int)
    ensures
        spec_parse_string_body(s, i) matches Some((t, j)) ==> i < j <= s.len(),
    decreases s.len() - i,
{
    if 0 <= i < s.len() {
        if s[i] == '\\' {
            if i + 1 < s.len() {
                if s[i + 1] == 'u' {
                    if i + 5 < s.len() {
                        lemma_string_body_advances(s, i + 6);
                    }
                } else {
                    lemma_string_body_advances(s, i + 2);
                }
            }
        } else {
            lemma_string_body_advances(s, i + 1);
        }
    }
}

fn unescape(c: char) -> (r: Option<char>)
    ensures
        r == spec_unescape(c),
{
    if c == '"' {
        Some('"')
    } else if c == '\\' {
        Some('\\')
    } else if c == '/' {
        Some('/')
    } else if c == 'n' {
        Some('\n')
    } else if c == 'r' {
        Some('\r')
    } else if c == 't' {
        Some('\t')
    } else if c == 'b' {
        Some('\u{8}')
    } else if c == 'f' {
        Some('\u{c}')
    } else {
        None
    }
}

fn parse_string_body(s: &str, i: usize, acc: &mut String) -> (r: Option<usize>)
    requires
        i <= s@.len(),
    ensures
        match r {
            Some(j) => spec_parse_string_body(s@, i as int) matches Some((t, je)) && je == j as int
                && final(acc)@ == old(acc)@ + t && i < j <= s@.len(),
            None => spec_parse_string_body(s@, i as int) is None,
        },
    decreases s@.len() - i,
{
    let len = s.unicode_len();
    if i >= len {
        return None;
    }
    let c = s.get_char(i);
    if c == '"' {
        proof {
            assert(acc@ + Seq::<char>::empty() =~= acc@);
        }
        return Some(i + 1);
    }
    if c == '\\' {
        if i + 1 >= len {
            return None;
        }
        let e = s.get_char(i + 1);
        if e == 'u' {
            if len - i < 6 {
                return None;
            }
            if s.get_char(i + 2) != '0' || s.get_char(i + 3) != '0' {
                return None;
            }
            let hu = s.get_char(i + 4) as u32;
            let lu = s.get_char(i + 5) as u32;
            if !((48 <= hu && hu <= 57) || (97 <= hu && hu <= 102) || (65 <= hu && hu <= 70)) {
                return None;
            }
            if !((48 <= lu && lu <= 57) || (97 <= lu && lu <= 102) || (65 <= lu && lu <= 70)) {
                return None;
            }
            let hx: u32 = if hu <= 57 {
                hu - 48
            } else if hu >= 97 {
                hu - 87
            } else {
                hu - 55
            };
            let lx: u32 = if lu <= 57 {
                lu - 48
            } else if lu >= 97 {
                lu - 87
            } else {
                lu - 55
            };
            let u = ((16 * hx + lx) as u8) as char;
            proof {
                assert(u == hex_char(s@[i as int + 4], s@[i as int + 5]));
            }
            acc.push(u);
            return match parse_string_body(s, i + 6, acc) {
                Some(j) => {
                    proof {
                        let t = spec_parse_string_body(s@, (i + 6) as int)->Some_0.0;
                        assert(acc@ =~= old(acc)@ + (seq![u] + t));
                    }
                    Some(j)
                },
                None => None,
            };
        }
        match unescape(e) {
            Some(u) => {
                acc.push(u);
                match parse_string_body(s, i + 2, acc) {
                    Some(j) => {
                        proof {
                            let t = spec_parse_string_body(s@, (i + 2) as int)->Some_0.0;
                            assert(acc@ =~= old(acc)@ + (seq![u] + t));
                        }
                        Some(j)
                    },
                    None => None,
                }
            },
            None => None,
        }
    } else if (c as u32) < 32 {
        None
    } else {
        acc.push(c);
        match parse_string_body(s, i + 1, acc) {
            Some(j) => {
                proof {
                    let t = spec_parse_string_body(s@, (i + 1) as int)->Some_0.0;
                    assert(acc@ =~= old(acc)@ + (seq![c] + t));
                }
                Some(j)
            },
            None => None,
        }
    }
}

fn parse_string(s: &str, i: usize) -> (r: Option<(String, usize)>)
    ensures
        match r {
            Some((v, j)) => spec_parse_string(s@, i as int) == Some((v@, j as int)) && i < j
                <= s@.len(),
            None => spec_parse_string(s@, i as int) is None,
        },
{
    let len = s.unicode_len();
    if i >= len {
        return None;
    }
    if s.get_char(i) != '"' {
        return None;
    }
    let mut acc = String::new();
    match parse_string_body(s, i + 1, &mut acc) {
        Some(j) => {
            proof {
                let t = spec_parse_string_body(s@, (i + 1) as int)->Some_0.0;
                assert(acc@ =~= t);
            }
            Some((acc, j))
        },
        None => None,
    }
}

// ---------------------------------------------------------------------------
// Numbers
// ---------------------------------------------------------------------------
pub open spec fn is_json_digit(c: char) -> bool {
    48 <= c as u32 <= 57
}

pub open spec fn digit_value(c: char) -> nat
    recommends
        is_json_digit(c),
{
    (c as u32 - 48) as nat
}

/// Accumulate decimal digits from position `i` onto `acc`; stops at the
/// first non-digit.
pub open spec fn spec_parse_digits(s: Seq<char>, i: int, acc: nat) -> (nat, int)
    decreases s.len() - i,
{
    if 0 <= i < s.len() && is_json_digit(s[i]) {
        spec_parse_digits(s, i + 1, acc * 10 + digit_value(s[i]))
    } else {
        (acc, i)
    }
}

/// A canonical unsigned decimal at position `i`: a single `0`, or a nonzero
/// digit followed by digits.  The mathematical value is unbounded here;
/// bounds are imposed where the number is used.
pub open spec fn spec_parse_number(s: Seq<char>, i: int) -> Option<(nat, int)> {
    if 0 <= i < s.len() && is_json_digit(s[i]) {
        if s[i] == '0' {
            Some((0, i + 1))
        } else {
            Some(spec_parse_digits(s, i, 0))
        }
    } else {
        None
    }
}

proof fn lemma_digits_monotone(s: Seq<char>, i: int, acc: nat)
    ensures
        spec_parse_digits(s, i, acc).0 >= acc,
        i <= spec_parse_digits(s, i, acc).1,
        spec_parse_digits(s, i, acc).1 <= s.len() || i > s.len(),
    decreases s.len() - i,
{
    if 0 <= i < s.len() && is_json_digit(s[i]) {
        lemma_digits_monotone(s, i + 1, acc * 10 + digit_value(s[i]));
    }
}

fn parse_digits(s: &str, i: usize, acc: usize) -> (r: Option<(usize, usize)>)
    requires
        i <= s@.len(),
    ensures
        match r {
            Some((v, j)) => spec_parse_digits(s@, i as int, acc as nat) == (v as nat, j as int)
                && i <= j <= s@.len(),
            None => spec_parse_digits(s@, i as int, acc as nat).0 > usize::MAX,
        },
    decreases s@.len() - i,
{
    let len = s.unicode_len();
    if i >= len {
        return Some((acc, i));
    }
    let cu = s.get_char(i) as u32;
    if 48 <= cu && cu <= 57 {
        let d = (cu - 48) as usize;
        if acc > (usize::MAX - d) / 10 {
            proof {
                lemma_fundamental_div_mod((usize::MAX - d) as int, 10);
                assert(acc * 10 + d > usize::MAX);
                lemma_digits_monotone(s@, (i + 1) as int, (acc * 10 + d) as nat);
            }
            return None;
        }
        proof {
            lemma_fundamental_div_mod((usize::MAX - d) as int, 10);
            assert(acc * 10 + d <= usize::MAX);
        }
        parse_digits(s, i + 1, acc * 10 + d)
    } else {
        Some((acc, i))
    }
}

fn parse_number(s: &str, i: usize) -> (r: Option<(usize, usize)>)
    ensures
        match r {
            Some((v, j)) => spec_parse_number(s@, i as int) == Some((v as nat, j as int)) && i < j
                <= s@.len(),
            None => spec_parse_number(s@, i as int) is None || spec_parse_number(
                s@,
                i as int,
            )->Some_0.0 > usize::MAX,
        },
{
    let len = s.unicode_len();
    if i >= len {
        return None;
    }
    let cu = s.get_char(i) as u32;
    if cu < 48 || cu > 57 {
        return None;
    }
    if cu == 48 {
        return Some((0, i + 1));
    }
    proof {
        lemma_digits_monotone(s@, i as int + 1, digit_value(s@[i as int]));
    }
    match parse_digits(s, i, 0) {
        Some((v, j)) => Some((v, j)),
        None => None,
    }
}

// ---------------------------------------------------------------------------
// Encoding strings
// ---------------------------------------------------------------------------
/// How one character is written inside a string token.
pub open spec fn spec_escape_char(c: char) -> Seq<char> {
    if c == '"' {
        seq!['\\', '"']
    } else if c == '\\' {
        seq!['\\', '\\']
    } else if c == '\n' {
        seq!['\\', 'n']
    } else if c == '\r' {
        seq!['\\', 'r']
    } else if c == '\t' {
        seq!['\\', 't']
    } else {
        seq![c]
    }
}

pub open spec fn spec_escape(t: Seq<char>) -> Seq<char>
    decreases t.len(),
{
    if t.len() == 0 {
        Seq::empty()
    } else {
        spec_escape(t.drop_last()) + spec_escape_char(t.last())
    }
}

/// The canonical string token for content `t`.
pub open spec fn spec_encode_string(t: Seq<char>) -> Seq<char> {
    seq!['"'] + spec_escape(t) + seq!['"']
}

/// Append the string token for `t` to `out`.
fn encode_string_into(out: &mut String, t: &str)
    ensures
        final(out)@ == old(out)@ + spec_encode_string(t@),
{
    let ghost base = out@;
    out.push('"');
    let len = t.unicode_len();
    let mut k: usize = 0;
    while k < len
        invariant
            k <= len,
            len == t@.len(),
            out@ == base + seq!['"'] + spec_escape(t@.take(k as int)),
        decreases len - k,
    {
        let c = t.get_char(k);
        let ghost before = out@;
        if c == '"' {
            out.push('\\');
            out.push('"');
        } else if c == '\\' {
            out.push('\\');
            out.push('\\');
        } else if c == '\n' {
            out.push('\\');
            out.push('n');
        } else if c == '\r' {
            out.push('\\');
            out.push('r');
        } else if c == '\t' {
            out.push('\\');
            out.push('t');
        } else {
            out.push(c);
        }
        proof {
            assert(out@ =~= before + spec_escape_char(t@[k as int]));
            assert(t@.take(k + 1).drop_last() =~= t@.take(k as int));
            assert(t@.take(k + 1).last() == t@[k as int]);
            assert(out@ =~= base + seq!['"'] + spec_escape(t@.take(k + 1)));
        }
        k += 1;
    }
    out.push('"');
    proof {
        assert(t@.take(len as int) =~= t@);
        assert(out@ =~= base + spec_encode_string(t@));
    }
}

// ---------------------------------------------------------------------------
// String arrays
// ---------------------------------------------------------------------------
/// One or more comma-separated string tokens, consuming the closing `]`.
pub open spec fn spec_parse_string_items(s: Seq<char>, i: int) -> Option<(Seq<Seq<char>>, int)>
    decreases s.len() - i
        via spec_parse_string_items_decreases
{
    match spec_parse_string(s, i) {
        Some((v, j)) => {
            if j < s.len() && s[j] == ',' {
                match spec_parse_string_items(s, j + 1) {
                    Some((vs, k)) => Some((seq![v] + vs, k)),
                    None => None,
                }
            } else if j < s.len() && s[j] == ']' {
                Some((seq![v], j + 1))
            } else {
                None
            }
        },
        None => None,
    }
}

#[via_fn]
proof fn spec_parse_string_items_decreases(s: Seq<char>, i: int) {
    lemma_string_body_advances(s, i + 1);
}

/// A `["a","b",...]` array of string tokens (possibly empty), consuming the
/// closing bracket.
pub open spec fn spec_parse_string_array(s: Seq<char>, i: int) -> Option<(Seq<Seq<char>>, int)> {
    if 0 <= i < s.len() && s[i] == '[' {
        if i + 1 < s.len() && s[i + 1] == ']' {
            Some((Seq::empty(), i + 2))
        } else {
            spec_parse_string_items(s, i + 1)
        }
    } else {
        None
    }
}

/// `null` or a string array.
pub open spec fn spec_parse_opt_string_array(s: Seq<char>, i: int) -> Option<
    (Option<Seq<Seq<char>>>, int),
> {
    match spec_parse_lit(s, i, "null"@) {
        Some(j) => Some((None, j)),
        None => match spec_parse_string_array(s, i) {
            Some((vs, j)) => Some((Some(vs), j)),
            None => None,
        },
    }
}

proof fn lemma_string_items_advances(s: Seq<char>, i: int)
    ensures
        spec_parse_string_items(s, i) matches Some((vs, k)) ==> i < k <= s.len(),
    decreases s.len() - i,
{
    lemma_string_body_advances(s, i + 1);
    if spec_parse_string_items(s, i) is Some {
        let (v, j) = spec_parse_string(s, i)->Some_0;
        if j < s.len() && s[j] == ',' {
            lemma_string_items_advances(s, j + 1);
        }
    }
}

proof fn lemma_string_array_advances(s: Seq<char>, i: int)
    ensures
        spec_parse_string_array(s, i) matches Some((vs, k)) ==> i < k <= s.len(),
{
    lemma_string_items_advances(s, i + 1);
}

proof fn lemma_opt_string_array_advances(s: Seq<char>, i: int)
    ensures
        spec_parse_opt_string_array(s, i) matches Some((o, k)) ==> i <= k <= s.len(),
{
    lemma_string_array_advances(s, i);
}

fn parse_string_items(s: &str, i: usize, acc: &mut Vec<String>) -> (r: Option<usize>)
    requires
        i <= s@.len(),
    ensures
        match r {
            Some(j) => spec_parse_string_items(s@, i as int) matches Some((vs, k)) && k == j as int
                && final(acc).deep_view() == old(acc).deep_view() + vs && i < j <= s@.len(),
            None => spec_parse_string_items(s@, i as int) is None,
        },
    decreases s@.len() - i,
{
    let len = s.unicode_len();
    match parse_string(s, i) {
        Some((v, j)) => {
            let ghost vv = v@;
            acc.push(v);
            proof {
                assert(acc.deep_view() =~= old(acc).deep_view().push(vv));
            }
            if j < len && s.get_char(j) == ',' {
                match parse_string_items(s, j + 1, acc) {
                    Some(k) => {
                        proof {
                            let vs = spec_parse_string_items(s@, j as int + 1)->Some_0.0;
                            assert(acc.deep_view() =~= old(acc).deep_view() + (seq![vv] + vs));
                        }
                        Some(k)
                    },
                    None => None,
                }
            } else if j < len && s.get_char(j) == ']' {
                proof {
                    assert(acc.deep_view() =~= old(acc).deep_view() + seq![vv]);
                }
                Some(j + 1)
            } else {
                None
            }
        },
        None => None,
    }
}

fn parse_string_array(s: &str, i: usize) -> (r: Option<(Vec<String>, usize)>)
    ensures
        match r {
            Some((v, j)) => spec_parse_string_array(s@, i as int) == Some(
                (v.deep_view(), j as int),
            ) && i < j <= s@.len(),
            None => spec_parse_string_array(s@, i as int) is None,
        },
{
    let len = s.unicode_len();
    if i >= len || s.get_char(i) != '[' {
        return None;
    }
    let mut acc: Vec<String> = Vec::new();
    if i + 1 < len && s.get_char(i + 1) == ']' {
        proof {
            assert(acc.deep_view() =~= Seq::<Seq<char>>::empty());
        }
        return Some((acc, i + 2));
    }
    match parse_string_items(s, i + 1, &mut acc) {
        Some(j) => {
            proof {
                let vs = spec_parse_string_items(s@, i as int + 1)->Some_0.0;
                assert(acc.deep_view() =~= vs);
            }
            Some((acc, j))
        },
        None => None,
    }
}

fn parse_opt_string_array(s: &str, i: usize) -> (r: Option<(Option<Vec<String>>, usize)>)
    ensures
        match r {
            Some((o, j)) => spec_parse_opt_string_array(s@, i as int) == Some(
                (o.deep_view(), j as int),
            ) && i <= j <= s@.len(),
            None => spec_parse_opt_string_array(s@, i as int) is None,
        },
{
    match parse_lit(s, i, "null") {
        Some(j) => Some((None, j)),
        None => match parse_string_array(s, i) {
            Some((v, j)) => Some((Some(v), j)),
            None => None,
        },
    }
}

// ---------------------------------------------------------------------------
// Steps and workflows
// ---------------------------------------------------------------------------
/// One step object, all five fields in their canonical order.
pub open spec fn spec_parse_step(s: Seq<char>, i: int) -> Option<(StepView, int)> {
    match spec_parse_lit(s, i, "{\"name\":"@) {
        Some(i1) => match spec_parse_string(s, i1) {
            Some((name, i2)) => spec_parse_step_mid(s, i2, name),
            None => None,
        },
        None => None,
    }
}

/// The middle of a step object: the image and environment fields.
pub open spec fn spec_parse_step_mid(s: Seq<char>, i: int, name: Seq<char>) -> Option<
    (StepView, int),
> {
    match spec_parse_lit(s, i, ",\"image\":"@) {
        Some(i3) => match spec_parse_string(s, i3) {
            Some((image, i4)) => match spec_parse_lit(s, i4, ",\"env\":"@) {
                Some(i5) => match spec_parse_opt_string_array(s, i5) {
                    Some((env, i6)) => spec_parse_step_tail(s, i6, name, image, env),
                    None => None,
                },
                None => None,
            },
            None => None,
        },
        None => None,
    }
}

/// The tail of a step object: the input and output fields and the closing
/// brace.
pub open spec fn spec_parse_step_tail(
    s: Seq<char>,
    i: int,
    name: Seq<char>,
    image: Seq<char>,
    env: Option<Seq<Seq<char>>>,
) -> Option<(StepView, int)> {
    match spec_parse_lit(s, i, ",\"input\":"@) {
        Some(i7) => match spec_parse_opt_string_array(s, i7) {
            Some((input, i8)) => match spec_parse_lit(s, i8, ",\"output\":"@) {
                Some(i9) => match spec_parse_string(s, i9) {
                    Some((output, i10)) => match spec_parse_lit(s, i10, "}"@) {
                        Some(j) => Some((StepView { name, image, env, input, output }, j)),
                        None => None,
                    },
                    None => None,
                },
                None => None,
            },
            None => None,
        },
        None => None,
    }
}

proof fn lemma_step_advances(s: Seq<char>, i: int)
    ensures
        spec_parse_step(s, i) matches Some((st, j)) ==> i < j <= s.len(),
{
    if spec_parse_step(s, i) is Some {
        let i1 = spec_parse_lit(s, i, "{\"name\":"@)->Some_0;
        lemma_string_body_advances(s, i1 + 1);
        let i2 = spec_parse_string(s, i1)->Some_0.1;
        let i3 = spec_parse_lit(s, i2, ",\"image\":"@)->Some_0;
        lemma_string_body_advances(s, i3 + 1);
        let i4 = spec_parse_string(s, i3)->Some_0.1;
        let i5 = spec_parse_lit(s, i4, ",\"env\":"@)->Some_0;
        lemma_opt_string_array_advances(s, i5);
        let i6 = spec_parse_opt_string_array(s, i5)->Some_0.1;
        let i7 = spec_parse_lit(s, i6, ",\"input\":"@)->Some_0;
        lemma_opt_string_array_advances(s, i7);
        let i8 = spec_parse_opt_string_array(s, i7)->Some_0.1;
        let i9 = spec_parse_lit(s, i8, ",\"output\":"@)->Some_0;
        lemma_string_body_advances(s, i9 + 1);
    }
}

/// One or more comma-separated step objects, consuming the closing `]`.
pub open spec fn spec_parse_step_items(s: Seq<char>, i: int) -> Option<(Seq<StepView>, int)>
    decreases s.len() - i
        via spec_parse_step_items_decreases
{
    match spec_parse_step(s, i) {
        Some((st, j)) => {
            if j < s.len() && s[j] == ',' {
                match spec_parse_step_items(s, j + 1) {
                    Some((sts, k)) => Some((seq![st] + sts, k)),
                    None => None,
                }
            } else if j < s.len() && s[j] == ']' {
                Some((seq![st], j + 1))
            } else {
                None
            }
        },
        None => None,
    }
}

#[via_fn]
proof fn spec_parse_step_items_decreases(s: Seq<char>, i: int) {
    lemma_step_advances(s, i);
}

/// A whole workflow object: the output list, then the step list, closing the
/// object.
pub open spec fn spec_parse_workflow(s: Seq<char>, i: int) -> Option<(WorkflowView, int)> {
    match spec_parse_lit(s, i, "{\"output\":"@) {
        Some(i1) => match spec_parse_string_array(s, i1) {
            Some((output, i2)) => match spec_parse_lit(s, i2, ",\"steps\":["@) {
                Some(i3) => match spec_parse_lit(s, i3, "]}"@) {
                    Some(j) => Some((WorkflowView { output, steps: Seq::empty() }, j)),
                    None => match spec_parse_step_items(s, i3) {
                        Some((steps, i4)) => match spec_parse_lit(s, i4, "}"@) {
                            Some(j) => Some((WorkflowView { output, steps }, j)),
                            None => None,
                        },
                        None => None,
                    },
                },
                None => None,
            },
            None => None,
        },
        None => None,
    }
}

fn parse_step(s: &str, i: usize) -> (r: Option<(WorkflowStep, usize)>)
    ensures
        match r {
            Some((st, j)) => spec_parse_step(s@, i as int) == Some((st.deep_view(), j as int)) && i
                < j <= s@.len(),
            None => spec_parse_step(s@, i as int) is None,
        },
{
    let i1 = match parse_lit(s, i, "{\"name\":") {
        Some(j) => j,
        None => {
            return None;
        },
    };
    let (name, i2) = match parse_string(s, i1) {
        Some(p) => p,
        None => {
            return None;
        },
    };
    let i3 = match parse_lit(s, i2, ",\"image\":") {
        Some(j) => j,
        None => {
            return None;
        },
    };
    let (image, i4) = match parse_string(s, i3) {
        Some(p) => p,
        None => {
            return None;
        },
    };
    let i5 = match parse_lit(s, i4, ",\"env\":") {
        Some(j) => j,
        None => {
            return None;
        },
    };
    let (env, i6) = match parse_opt_string_array(s, i5) {
        Some(p) => p,
        None => {
            return None;
        },
    };
    let i7 = match parse_lit(s, i6, ",\"input\":") {
        Some(j) => j,
        None => {
            return None;
        },
    };
    let (input, i8) = match parse_opt_string_array(s, i7) {
        Some(p) => p,
        None => {
            return None;
        },
    };
    let i9 = match parse_lit(s, i8, ",\"output\":") {
        Some(j) => j,
        None => {
            return None;
        },
    };
    let (output, i10) = match parse_string(s, i9) {
        Some(p) => p,
        None => {
            return None;
        },
    };
    let j = match parse_lit(s, i10, "}") {
        Some(j) => j,
        None => {
            return None;
        },
    };
    Some((WorkflowStep { name, image, env, input, output }, j))
}

fn parse_step_items(s: &str, i: usize, acc: &mut Vec<WorkflowStep>) -> (r: Option<usize>)
    requires
        i <= s@.len(),
    ensures
        match r {
            Some(j) => spec_parse_step_items(s@, i as int) matches Some((sts, k)) && k == j as int
                && final(acc).deep_view() == old(acc).deep_view() + sts && i < j <= s@.len(),
            None => spec_parse_step_items(s@, i as int) is None,
        },
    decreases s@.len() - i,
{
    let len = s.unicode_len();
    match parse_step(s, i) {
        Some((st, j)) => {
            let ghost sv = st.deep_view();
            acc.push(st);
            proof {
                assert(acc.deep_view() =~= old(acc).deep_view().push(sv));
            }
            if j < len && s.get_char(j) == ',' {
                match parse_step_items(s, j + 1, acc) {
                    Some(k) => {
                        proof {
                            let sts = spec_parse_step_items(s@, j as int + 1)->Some_0.0;
                            assert(acc.deep_view() =~= old(acc).deep_view() + (seq![sv] + sts));
                        }
                        Some(k)
                    },
                    None => None,
                }
            } else if j < len && s.get_char(j) == ']' {
                proof {
                    assert(acc.deep_view() =~= old(acc).deep_view() + seq![sv]);
                }
                Some(j + 1)
            } else {
                None
            }
        },
        None => None,
    }
}

fn parse_workflow(s: &str, i: usize) -> (r: Option<(Workflow, usize)>)
    ensures
        match r {
            Some((w, j)) => spec_parse_workflow(s@, i as int) == Some((w.deep_view(), j as int))
                && i < j <= s@.len(),
            None => spec_parse_workflow(s@, i as int) is None,
        },
{
    let i1 = match parse_lit(s, i, "{\"output\":") {
        Some(j) => j,
        None => {
            return None;
        },
    };
    let (output, i2) = match parse_string_array(s, i1) {
        Some(p) => p,
        None => {
            return None;
        },
    };
    let i3 = match parse_lit(s, i2, ",\"steps\":[") {
        Some(j) => j,
        None => {
            return None;
        },
    };
    match parse_lit(s, i3, "]}") {
        Some(j) => {
            let steps: Vec<WorkflowStep> = Vec::new();
            proof {
                assert(steps.deep_view() =~= Seq::<StepView>::empty());
            }
            Some((Workflow { output, steps }, j))
        },
        None => {
            let mut steps: Vec<WorkflowStep> = Vec::new();
            let i4 = match parse_step_items(s, i3, &mut steps) {
                Some(j) => j,
                None => {
                    return None;
                },
            };
            let j = match parse_lit(s, i4, "}") {
                Some(j) => j,
                None => {
                    return None;
                },
            };
            proof {
                let sts = spec_parse_step_items(s@, i3 as int)->Some_0.0;
                assert(steps.deep_view() =~= sts);
            }
            Some((Workflow { output, steps }, j))
        },
    }
}

/// The executor object: a closed set of kind names.
pub open spec fn spec_parse_executor(s: Seq<char>, i: int) -> Option<(Executor, int)> {
    match spec_parse_lit(s, i, "{\"name\":\"DockerExecutor\"}"@) {
        Some(j) => Some((Executor::DockerExecutor, j)),
        None => match spec_parse_lit(s, i, "{\"name\":\"HPCExecutor\"}"@) {
            Some(j) => Some((Executor::HPCExecutor, j)),
            None => None,
        },
    }
}

fn parse_executor(s: &str, i: usize) -> (r: Option<(Executor, usize)>)
    ensures
        match r {
            Some((e, j)) => spec_parse_executor(s@, i as int) == Some((e, j as int)) && i <= j
                <= s@.len(),
            None => spec_parse_executor(s@, i as int) is None,
        },
{
    match parse_lit(s, i, "{\"name\":\"DockerExecutor\"}") {
        Some(j) => Some((Executor::DockerExecutor, j)),
        None => match parse_lit(s, i, "{\"name\":\"HPCExecutor\"}") {
            Some(j) => Some((Executor::HPCExecutor, j)),
            None => None,
        },
    }
}

/// A whole execution-task document: executor choice, then workflow, with
/// nothing trailing.
pub open spec fn spec_parse_execution_task(s: Seq<char>) -> Option<ExecutionTaskView> {
    match spec_parse_lit(s, 0, "{\"executor\":"@) {
        Some(i1) => match spec_parse_executor(s, i1) {
            Some((ex, i2)) => match spec_parse_lit(s, i2, ",\"workflow\":"@) {
                Some(i3) => match spec_parse_workflow(s, i3) {
                    Some((wf, i4)) => match spec_parse_lit(s, i4, "}"@) {
                        Some(j) => if j == s.len() {
                            Some(ExecutionTaskView { executor: ex, workflow: wf })
                        } else {
                            None
                        },
                        None => None,
                    },
                    None => None,
                },
                None => None,
            },
            None => None,
        },
        None => None,
    }
}

/// Decode a task body into an execution task.  Succeeds exactly on the
/// documents that, with their insignificant whitespace removed, match
/// [`spec_parse_execution_task`]; any other body is a per-task decode
/// failure, reported as `ParsingError` so the task can be dropped without
/// disturbing its siblings.
pub fn decode_execution_task(body: &str) -> (r: Result<ExecutionTask, ExecutorError>)
    ensures
        match r {
            Ok(t) => spec_parse_execution_task(spec_strip_ws(body@)) == Some(t.deep_view()),
            Err(e) => spec_parse_execution_task(spec_strip_ws(body@)) is None && (e matches
                ExecutorError::ParsingError(_)),
        },
{
    let doc = strip_ws(body);
    let s = doc.as_str();
    let i1 = match parse_lit(s, 0, "{\"executor\":") {
        Some(j) => j,
        None => {
            return Err(ExecutorError::ParsingError(body.to_owned()));
        },
    };
    let (ex, i2) = match parse_executor(s, i1) {
        Some(p) => p,
        None => {
            return Err(ExecutorError::ParsingError(body.to_owned()));
        },
    };
    let i3 = match parse_lit(s, i2, ",\"workflow\":") {
        Some(j) => j,
        None => {
            return Err(ExecutorError::ParsingError(body.to_owned()));
        },
    };
    let (wf, i4) = match parse_workflow(s, i3) {
        Some(p) => p,
        None => {
            return Err(ExecutorError::ParsingError(body.to_owned()));
        },
    };
    let j = match parse_lit(s, i4, "}") {
        Some(j) => j,
        None => {
            return Err(ExecutorError::ParsingError(body.to_owned()));
        },
    };
    if j != s.unicode_len() {
        return Err(ExecutorError::ParsingError(body.to_owned()));
    }
    Ok(ExecutionTask { executor: ExecutorInfo { name: ex }, workflow: wf })
}

// ---------------------------------------------------------------------------
// Encoding workflows
// ---------------------------------------------------------------------------
pub open spec fn spec_encode_string_items(v: Seq<Seq<char>>) -> Seq<char>
    decreases v.len(),
{
    if v.len() == 0 {
        Seq::empty()
    } else if v.len() == 1 {
        spec_encode_string(v[0])
    } else {
        spec_encode_string_items(v.drop_last()) + seq![','] + spec_encode_string(v.last())
    }
}

/// The canonical array token for a list of strings.
pub open spec fn spec_encode_string_array(v: Seq<Seq<char>>) -> Seq<char> {
    seq!['['] + spec_encode_string_items(v) + seq![']']
}

pub open spec fn spec_encode_opt_string_array(o: Option<Seq<Seq<char>>>) -> Seq<char> {
    match o {
        None => "null"@,
        Some(v) => spec_encode_string_array(v),
    }
}

/// The canonical encoding of one step object.
pub open spec fn spec_encode_step(st: StepView) -> Seq<char> {
    "{\"name\":"@ + spec_encode_string(st.name) + ",\"image\":"@ + spec_encode_string(st.image)
        + ",\"env\":"@ + spec_encode_opt_string_array(st.env) + ",\"input\":"@
        + spec_encode_opt_string_array(st.input) + ",\"output\":"@ + spec_encode_string(st.output)
        + "}"@
}

pub open spec fn spec_encode_step_items(v: Seq<StepView>) -> Seq<char>
    decreases v.len(),
{
    if v.len() == 0 {
        Seq::empty()
    } else if v.len() == 1 {
        spec_encode_step(v[0])
    } else {
        spec_encode_step_items(v.drop_last()) + seq![','] + spec_encode_step(v.last())
    }
}

/// The canonical encoding of a whole workflow — what is handed to the
/// container on its standard input.
pub open spec fn spec_encode_workflow(w: WorkflowView) -> Seq<char> {
    "{\"output\":"@ + spec_encode_string_array(w.output) + ",\"steps\":["@
        + spec_encode_step_items(w.steps) + "]}"@
}

fn encode_string_array_into(out: &mut String, v: &Vec<String>)
    ensures
        final(out)@ == old(out)@ + spec_encode_string_array(v.deep_view()),
{
    let ghost base = out@;
    out.push('[');
    let mut k: usize = 0;
    while k < v.len()
        invariant
            k <= v@.len(),
            out@ == base + seq!['['] + spec_encode_string_items(v.deep_view().take(k as int)),
        decreases v@.len() - k,
    {
        let ghost before = out@;
        if k > 0 {
            out.push(',');
        }
        encode_string_into(out, v[k].as_str());
        proof {
            let dv = v.deep_view();
            assert(dv.take(k + 1).drop_last() =~= dv.take(k as int));
            assert(dv.take(k + 1).last() == dv[k as int]);
            if k == 0 {
                assert(dv.take(1).len() == 1);
                assert(dv.take(1)[0] == dv[0]);
                assert(out@ =~= base + seq!['['] + spec_encode_string_items(dv.take(k + 1)));
            } else {
                assert(out@ =~= base + seq!['['] + spec_encode_string_items(dv.take(k + 1)));
            }
        }
        k += 1;
    }
    out.push(']');
    proof {
        assert(v.deep_view().take(v@.len() as int) =~= v.deep_view());
        assert(out@ =~= base + spec_encode_string_array(v.deep_view()));
    }
}

fn encode_opt_string_array_into(out: &mut String, o: &Option<Vec<String>>)
    ensures
        final(out)@ == old(out)@ + spec_encode_opt_string_array(o.deep_view()),
{
    match o {
        None => {
            out.append("null");
        },
        Some(v) => {
            encode_string_array_into(out, v);
        },
    }
}

fn encode_step_into(out: &mut String, st: &WorkflowStep)
    ensures
        final(out)@ == old(out)@ + spec_encode_step(st.deep_view()),
{
    out.append("{\"name\":");
    encode_string_into(out, st.name.as_str());
    out.append(",\"image\":");
    encode_string_into(out, st.image.as_str());
    out.append(",\"env\":");
    encode_opt_string_array_into(out, &st.env);
    out.append(",\"input\":");
    encode_opt_string_array_into(out, &st.input);
    out.append(",\"output\":");
    encode_string_into(out, st.output.as_str());
    out.append("}");
    proof {
        assert(out@ =~= old(out)@ + spec_encode_step(st.deep_view()));
    }
}

/// Encode a workflow to its canonical wire form, the exact text a container
/// receives (before the newline terminator).
pub fn encode_workflow(w: &Workflow) -> (r: String)
    ensures
        r@ == spec_encode_workflow(w.deep_view()),
{
    let mut out = String::new();
    out.append("{\"output\":");
    encode_string_array_into(&mut out, &w.output);
    out.append(",\"steps\":[");
    let ghost mid = out@;
    let mut k: usize = 0;
    while k < w.steps.len()
        invariant
            k <= w.steps@.len(),
            out@ == mid + spec_encode_step_items(w.steps.deep_view().take(k as int)),
        decreases w.steps@.len() - k,
    {
        if k > 0 {
            out.push(',');
        }
        encode_step_into(&mut out, &w.steps[k]);
        proof {
            let dv = w.steps.deep_view();
            assert(dv.take(k + 1).drop_last() =~= dv.take(k as int));
            assert(dv.take(k + 1).last() == dv[k as int]);
            if k == 0 {
                assert(dv.take(1).len() == 1);
                assert(dv.take(1)[0] == dv[0]);
            }
            assert(out@ =~= mid + spec_encode_step_items(dv.take(k + 1)));
        }
        k += 1;
    }
    out.append("]}");
    proof {
        assert(w.steps.deep_view().take(w.steps@.len() as int) =~= w.steps.deep_view());
        assert(out@ =~= spec_encode_workflow(w.deep_view()));
    }
    out
}

// ---------------------------------------------------------------------------
// Insignificant whitespace
// ---------------------------------------------------------------------------
/// The whitespace JSON admits between tokens.
pub open spec fn is_json_ws(c: char) -> bool {
    c == ' ' || c == '\t' || c == '\n' || c == '\r'
}

/// `s` from position `i` with every whitespace character outside string
/// tokens removed — the only freedom JSON allows between the tokens of these
/// wire shapes.  Inside a string token every character is kept; a backslash
/// escapes the character after it, so an escaped quote does not end the
/// token.
pub open spec fn spec_strip_ws_from(
    s: Seq<char>,
    i: int,
    in_string: bool,
    escaped: bool,
) -> Seq<char>
    decreases s.len() - i,
{
    if i < 0 || i >= s.len() {
        Seq::empty()
    } else {
        let c = s[i];
        if in_string {
            if escaped {
                seq![c] + spec_strip_ws_from(s, i + 1, true, false)
            } else if c == '"' {
                seq![c] + spec_strip_ws_from(s, i + 1, false, false)
            } else if c == '\\' {
                seq![c] + spec_strip_ws_from(s, i + 1, true, true)
            } else {
                seq![c] + spec_strip_ws_from(s, i + 1, true, false)
            }
        } else if is_json_ws(c) {
            spec_strip_ws_from(s, i + 1, false, false)
        } else if c == '"' {
            seq![c] + spec_strip_ws_from(s, i + 1, true, false)
        } else {
            seq![c] + spec_strip_ws_from(s, i + 1, false, false)
        }
    }
}

/// `s` with its insignificant whitespace removed.
pub open spec fn spec_strip_ws(s: Seq<char>) -> Seq<char> {
    spec_strip_ws_from(s, 0, false, false)
}

/// Remove the insignificant whitespace of a document before it is held to
/// the token grammar.
fn strip_ws(s: &str) -> (r: String)
    ensures
        r@ == spec_strip_ws(s@),
{
    let len = s.unicode_len();
    let mut acc = String::new();
    let mut in_string = false;
    let mut escaped = false;
    let mut i: usize = 0;
    while i < len
        invariant
            i <= len,
            len == s@.len(),
            !in_string ==> !escaped,
            spec_strip_ws(s@) == acc@ + spec_strip_ws_from(s@, i as int, in_string, escaped),
        decreases len - i,
    {
        let c = s.get_char(i);
        let ghost pre = acc@;
        let ghost was_escaped = escaped;
        if in_string {
            acc.push(c);
            if escaped {
                escaped = false;
            } else if c == '"' {
                in_string = false;
            } else if c == '\\' {
                escaped = true;
            }
            proof {
                assert(pre + spec_strip_ws_from(s@, i as int, true, was_escaped) =~= acc@
                    + spec_strip_ws_from(s@, i as int + 1, in_string, escaped));
            }
        } else if c == ' ' || c == '\t' || c == '\n' || c == '\r' {
            proof {
                assert(spec_strip_ws_from(s@, i as int, false, false) == spec_strip_ws_from(
                    s@,
                    i as int + 1,
                    false,
                    false,
                ));
            }
        } else {
            acc.push(c);
            if c == '"' {
                in_string = true;
            }
            proof {
                assert(pre + spec_strip_ws_from(s@, i as int, false, false) =~= acc@
                    + spec_strip_ws_from(s@, i as int + 1, in_string, escaped));
            }
        }
        i += 1;
    }
    proof {
        assert(acc@ + spec_strip_ws_from(s@, len as int, in_string, escaped) =~= acc@);
    }
    acc
}

// ---------------------------------------------------------------------------
// The task wire format
// ---------------------------------------------------------------------------
/// Mathematical model of one task as it stands on the wire: the raw dotted
/// identity strings, the opaque metadata and body, and the declared
/// failure-handling policy.
pub ghost struct TaskWire {
    pub id: Seq<char>,
    pub from: Seq<char>,
    pub to: Seq<Seq<char>>,
    pub metadata: Seq<char>,
    pub body: Seq<char>,
    pub ttl: nat,
    pub backoff_millisecs: nat,
    pub max_tries: nat,
}

/// Every string of `vs` is a parseable application identity.
pub open spec fn all_app_ids(vs: Seq<Seq<char>>) -> bool {
    forall|k: int| 0 <= k < vs.len() ==> spec_parse_app_id(vs[k]) is Some
}

/// One task object.  Identity strings must parse, and the integer fields
/// must fit the machine word, or the task (and with it the batch) is
/// refused.
pub open spec fn spec_parse_task(s: Seq<char>, i: int) -> Option<(TaskWire, int)> {
    match spec_parse_lit(s, i, "{\"id\":"@) {
        Some(i1) => match spec_parse_string(s, i1) {
            Some((id, i2)) => match spec_parse_lit(s, i2, ",\"from\":"@) {
                Some(i3) => match spec_parse_string(s, i3) {
                    Some((from, i4)) => if spec_parse_app_id(from) is Some {
                        match spec_parse_lit(s, i4, ",\"to\":"@) {
                            Some(i5) => match spec_parse_string_array(s, i5) {
                                Some((to, i6)) => if all_app_ids(to) {
                                    match spec_parse_lit(s, i6, ",\"metadata\":"@) {
                                        Some(i7) => match spec_parse_string(s, i7) {
                                            Some((metadata, i8)) => match spec_parse_lit(
                                                s,
                                                i8,
                                                ",\"body\":"@,
                                            ) {
                                                Some(i9) => match spec_parse_string(s, i9) {
                                                    Some((body, i10)) => spec_parse_task_tail(
                                                        s,
                                                        i10,
                                                        id,
                                                        from,
                                                        to,
                                                        metadata,
                                                        body,
                                                    ),
                                                    None => None,
                                                },
                                                None => None,
                                            },
                                            None => None,
                                        },
                                        None => None,
                                    }
                                } else {
                                    None
                                },
                                None => None,
                            },
                            None => None,
                        }
                    } else {
                        None
                    },
                    None => None,
                },
                None => None,
            },
            None => None,
        },
        None => None,
    }
}

/// The numeric tail of a task object: the time-to-live and the declared
/// retry policy, then the three closing braces.
pub open spec fn spec_parse_task_tail(
    s: Seq<char>,
    i: int,
    id: Seq<char>,
    from: Seq<char>,
    to: Seq<Seq<char>>,
    metadata: Seq<char>,
    body: Seq<char>,
) -> Option<(TaskWire, int)> {
    match spec_parse_lit(s, i, ",\"ttl\":"@) {
        Some(i1) => match spec_parse_number(s, i1) {
            Some((ttl, i2)) => if ttl <= usize::MAX {
                match spec_parse_lit(
                    s,
                    i2,
                    ",\"failure_strategy\":{\"retry\":{\"backoff_millisecs\":"@,
                ) {
                    Some(i3) => match spec_parse_number(s, i3) {
                        Some((backoff, i4)) => if backoff <= usize::MAX {
                            match spec_parse_lit(s, i4, ",\"max_tries\":"@) {
                                Some(i5) => match spec_parse_number(s, i5) {
                                    Some((tries, i6)) => if tries <= usize::MAX {
                                        match spec_parse_lit(s, i6, "}}}"@) {
                                            Some(j) => Some(
                                                (
                                                    TaskWire {
                                                        id,
                                                        from,
                                                        to,
                                                        metadata,
                                                        body,
                                                        ttl,
                                                        backoff_millisecs: backoff,
                                                        max_tries: tries,
                                                    },
                                                    j,
                                                ),
                                            ),
                                            None => None,
                                        }
                                    } else {
                                        None
                                    },
                                    None => None,
                                },
                                None => None,
                            }
                        } else {
                            None
                        },
                        None => None,
                    },
                    None => None,
                }
            } else {
                None
            },
            None => None,
        },
        None => None,
    }
}

proof fn lemma_number_advances(s: Seq<char>, i: int)
    ensures
        spec_parse_number(s, i) matches Some((v, j)) ==> i < j <= s.len(),
{
    if spec_parse_number(s, i) is Some {
        if s[i] != '0' {
            lemma_digits_monotone(s, i + 1, digit_value(s[i]));
        }
    }
}

proof fn lemma_task_advances(s: Seq<char>, i: int)
    ensures
        spec_parse_task(s, i) matches Some((w, j)) ==> i < j <= s.len(),
{
    if spec_parse_task(s, i) is Some {
        let i1 = spec_parse_lit(s, i, "{\"id\":"@)->Some_0;
        lemma_string_body_advances(s, i1 + 1);
        let i2 = spec_parse_string(s, i1)->Some_0.1;
        let i3 = spec_parse_lit(s, i2, ",\"from\":"@)->Some_0;
        lemma_string_body_advances(s, i3 + 1);
        let i4 = spec_parse_string(s, i3)->Some_0.1;
        let i5 = spec_parse_lit(s, i4, ",\"to\":"@)->Some_0;
        lemma_string_array_advances(s, i5);
        let i6 = spec_parse_string_array(s, i5)->Some_0.1;
        let i7 = spec_parse_lit(s, i6, ",\"metadata\":"@)->Some_0;
        lemma_string_body_advances(s, i7 + 1);
        let i8 = spec_parse_string(s, i7)->Some_0.1;
        let i9 = spec_parse_lit(s, i8, ",\"body\":"@)->Some_0;
        lemma_string_body_advances(s, i9 + 1);
        let i10 = spec_parse_string(s, i9)->Some_0.1;
        let t1 = spec_parse_lit(s, i10, ",\"ttl\":"@)->Some_0;
        lemma_number_advances(s, t1);
        let t2 = spec_parse_number(s, t1)->Some_0.1;
        let t3 = spec_parse_lit(
            s,
            t2,
            ",\"failure_strategy\":{\"retry\":{\"backoff_millisecs\":"@,
        )->Some_0;
        lemma_number_advances(s, t3);
        let t4 = spec_parse_number(s, t3)->Some_0.1;
        let t5 = spec_parse_lit(s, t4, ",\"max_tries\":"@)->Some_0;
        lemma_number_advances(s, t5);
    }
}

/// One or more comma-separated task objects, consuming the closing `]`.
pub open spec fn spec_parse_task_items(s: Seq<char>, i: int) -> Option<(Seq<TaskWire>, int)>
    decreases s.len() - i
        via spec_parse_task_items_decreases
{
    match spec_parse_task(s, i) {
        Some((w, j)) => {
            if j < s.len() && s[j] == ',' {
                match spec_parse_task_items(s, j + 1) {
                    Some((ws, k)) => Some((seq![w] + ws, k)),
                    None => None,
                }
            } else if j < s.len() && s[j] == ']' {
                Some((seq![w], j + 1))
            } else {
                None
            }
        },
        None => None,
    }
}

#[via_fn]
proof fn spec_parse_task_items_decreases(s: Seq<char>, i: int) {
    lemma_task_advances(s, i);
}

/// A whole broker response: a (possibly empty) array of task objects with
/// nothing trailing.
pub open spec fn spec_parse_tasks(s: Seq<char>) -> Option<Seq<TaskWire>> {
    if s.len() >= 1 && s[0] == '[' {
        if s.len() == 2 && s[1] == ']' {
            Some(Seq::empty())
        } else {
            match spec_parse_task_items(s, 1) {
                Some((ws, j)) => if j == s.len() {
                    Some(ws)
                } else {
                    None
                },
                None => None,
            }
        }
    } else {
        None
    }
}

/// The decoded task holds exactly what stands on the wire: the same id,
/// metadata, body and numbers, and identities that render back to the very
/// strings the wire carried.
pub open spec fn task_matches_wire(t: BeamTask, w: TaskWire) -> bool {
    &&& t.id@ == w.id
    &&& t.from.wf() && t.from.dotted() == w.from
    &&& t.to.len() == w.to.len()
    &&& forall|k: int|
        0 <= k < w.to.len() ==> (#[trigger] t.to[k]).wf() && t.to[k].dotted() == w.to[k]
    &&& t.metadata@ == w.metadata
    &&& t.body@ == w.body
    &&& t.ttl as nat == w.ttl
    &&& t.failure_strategy matches FailureStrategy::Retry(rt) && rt.backoff_millisecs as nat
        == w.backoff_millisecs && rt.max_tries as nat == w.max_tries
}

/// Parse the identity strings of `arr` into identities that render back to
/// them; refused when any member is malformed.
fn parse_app_ids(arr: &Vec<String>) -> (r: Option<Vec<AppId>>)
    ensures
        match r {
            Some(ids) => all_app_ids(arr.deep_view()) && ids.len() == arr.len() && forall|k: int|
                0 <= k < arr@.len() ==> (#[trigger] ids[k]).wf() && ids[k].dotted()
                    == arr.deep_view()[k],
            None => !all_app_ids(arr.deep_view()),
        },
{
    let mut ids: Vec<AppId> = Vec::new();
    let mut k: usize = 0;
    while k < arr.len()
        invariant
            k <= arr@.len(),
            ids.len() == k,
            forall|m: int| 0 <= m < k ==> spec_parse_app_id(#[trigger] arr.deep_view()[m]) is Some,
            forall|m: int|
                0 <= m < k ==> (#[trigger] ids[m]).wf() && ids[m].dotted() == arr.deep_view()[m],
        decreases arr@.len() - k,
    {
        let one = arr[k].clone();
        proof {
            assert(one@ == arr.deep_view()[k as int]);
        }
        match AppId::new(one) {
            Ok(a) => {
                proof {
                    lemma_identity_round_trip(arr.deep_view()[k as int]);
                    assert(a.dotted() =~= arr.deep_view()[k as int]);
                }
                ids.push(a);
            },
            Err(_) => {
                proof {
                    assert(spec_parse_app_id(arr.deep_view()[k as int]) is None);
                }
                return None;
            },
        }
        k += 1;
    }
    Some(ids)
}

fn parse_task(s: &str, i: usize) -> (r: Option<(BeamTask, usize)>)
    ensures
        match r {
            Some((t, j)) => spec_parse_task(s@, i as int) matches Some((w, je)) && je == j as int
                && task_matches_wire(t, w) && i < j <= s@.len(),
            None => spec_parse_task(s@, i as int) is None,
        },
{
    let i1 = match parse_lit(s, i, "{\"id\":") {
        Some(j) => j,
        None => {
            return None;
        },
    };
    let (id, i2) = match parse_string(s, i1) {
        Some(p) => p,
        None => {
            return None;
        },
    };
    let i3 = match parse_lit(s, i2, ",\"from\":") {
        Some(j) => j,
        None => {
            return None;
        },
    };
    let (from_str, i4) = match parse_string(s, i3) {
        Some(p) => p,
        None => {
            return None;
        },
    };
    let ghost from_chars = from_str@;
    let from = match AppId::new(from_str) {
        Ok(a) => {
            proof {
                lemma_identity_round_trip(from_chars);
            }
            a
        },
        Err(_) => {
            return None;
        },
    };
    let i5 = match parse_lit(s, i4, ",\"to\":") {
        Some(j) => j,
        None => {
            return None;
        },
    };
    let (to_strs, i6) = match parse_string_array(s, i5) {
        Some(p) => p,
        None => {
            return None;
        },
    };
    let to = match parse_app_ids(&to_strs) {
        Some(ids) => ids,
        None => {
            return None;
        },
    };
    let i7 = match parse_lit(s, i6, ",\"metadata\":") {
        Some(j) => j,
        None => {
            return None;
        },
    };
    let (metadata, i8) = match parse_string(s, i7) {
        Some(p) => p,
        None => {
            return None;
        },
    };
    let i9 = match parse_lit(s, i8, ",\"body\":") {
        Some(j) => j,
        None => {
            return None;
        },
    };
    let (body, i10) = match parse_string(s, i9) {
        Some(p) => p,
        None => {
            return None;
        },
    };
    let t1 = match parse_lit(s, i10, ",\"ttl\":") {
        Some(j) => j,
        None => {
            return None;
        },
    };
    let (ttl, t2) = match parse_number(s, t1) {
        Some(p) => p,
        None => {
            return None;
        },
    };
    let t3 = match parse_lit(s, t2, ",\"failure_strategy\":{\"retry\":{\"backoff_millisecs\":") {
        Some(j) => j,
        None => {
            return None;
        },
    };
    let (backoff, t4) = match parse_number(s, t3) {
        Some(p) => p,
        None => {
            return None;
        },
    };
    let t5 = match parse_lit(s, t4, ",\"max_tries\":") {
        Some(j) => j,
        None => {
            return None;
        },
    };
    let (tries, t6) = match parse_number(s, t5) {
        Some(p) => p,
        None => {
            return None;
        },
    };
    let j = match parse_lit(s, t6, "}}}") {
        Some(j) => j,
        None => {
            return None;
        },
    };
    Some(
        (
            BeamTask {
                id,
                from,
                to,
                metadata,
                body,
                ttl,
                failure_strategy: FailureStrategy::Retry(
                    Retry { backoff_millisecs: backoff, max_tries: tries },
                ),
            },
            j,
        ),
    )
}

fn parse_task_items(s: &str, i: usize, acc: &mut Vec<BeamTask>) -> (r: Option<usize>)
    requires
        i <= s@.len(),
    ensures
        match r {
            Some(j) => spec_parse_task_items(s@, i as int) matches Some((ws, k)) && k == j as int
                && final(acc)@.len() == old(acc)@.len() + ws.len() && (forall|m: int|
                0 <= m < old(acc)@.len() ==> final(acc)@[m] == old(acc)@[m]) && (forall|m: int|
                0 <= m < ws.len() ==> task_matches_wire(
                    #[trigger] final(acc)@[old(acc)@.len() + m],
                    ws[m],
                )) && i < j <= s@.len(),
            None => spec_parse_task_items(s@, i as int) is None,
        },
    decreases s@.len() - i,
{
    let len = s.unicode_len();
    match parse_task(s, i) {
        Some((t, j)) => {
            let ghost w = spec_parse_task(s@, i as int)->Some_0.0;
            acc.push(t);
            let ghost mid = acc@;
            if j < len && s.get_char(j) == ',' {
                match parse_task_items(s, j + 1, acc) {
                    Some(k) => {
                        proof {
                            let ws_rest = spec_parse_task_items(s@, j as int + 1)->Some_0.0;
                            let ws = seq![w] + ws_rest;
                            let base = old(acc)@.len() as int;
                            assert(acc@[base] == mid[base]);
                            assert forall|m: int|
                                0 <= m < ws.len() implies task_matches_wire(
                                #[trigger] acc@[base + m],
                                ws[m],
                            ) by {
                                if m == 0 {
                                    assert(ws[0] == w);
                                    assert(acc@[base] == t);
                                } else {
                                    assert(ws[m] == ws_rest[m - 1]);
                                    assert(acc@[mid.len() + (m - 1)] == acc@[base + m]);
                                }
                            }
                        }
                        Some(k)
                    },
                    None => None,
                }
            } else if j < len && s.get_char(j) == ']' {
                proof {
                    let ws = seq![w];
                    let base = old(acc)@.len() as int;
                    assert forall|m: int|
                        0 <= m < ws.len() implies task_matches_wire(
                        #[trigger] acc@[base + m],
                        ws[m],
                    ) by {
                        assert(ws[0] == w);
                        assert(acc@[base] == t);
                    }
                }
                Some(j + 1)
            } else {
                None
            }
        },
        None => None,
    }
}

/// Decode the broker's task-list payload.  Succeeds exactly on the documents
/// that, with their insignificant whitespace removed, match
/// [`spec_parse_tasks`], yielding tasks that hold precisely what the wire
/// carried; anything else is one `UnableToParseTasks` failure for the whole
/// poll cycle.
pub fn decode_tasks(payload: &str) -> (r: Result<Vec<BeamTask>, ExecutorError>)
    ensures
        match r {
            Ok(ts) => spec_parse_tasks(spec_strip_ws(payload@)) matches Some(ws) && ts@.len()
                == ws.len() && forall|m: int|
                0 <= m < ws.len() ==> task_matches_wire(#[trigger] ts@[m], ws[m]),
            Err(e) => spec_parse_tasks(spec_strip_ws(payload@)) is None && (e matches
                ExecutorError::UnableToParseTasks(_)),
        },
{
    let doc = strip_ws(payload);
    let s = doc.as_str();
    let len = s.unicode_len();
    if len == 0 || s.get_char(0) != '[' {
        return Err(ExecutorError::UnableToParseTasks(payload.to_owned()));
    }
    if len == 2 && s.get_char(1) == ']' {
        let ts: Vec<BeamTask> = Vec::new();
        return Ok(ts);
    }
    let mut ts: Vec<BeamTask> = Vec::new();
    match parse_task_items(s, 1, &mut ts) {
        Some(j) => {
            if j == len {
                proof {
                    let ws = spec_parse_task_items(s@, 1)->Some_0.0;
                    assert forall|m: int|
                        0 <= m < ws.len() implies task_matches_wire(#[trigger] ts@[m], ws[m]) by {
                        assert(ts@[0 + m] == ts@[m]);
                    }
                }
                Ok(ts)
            } else {
                Err(ExecutorError::UnableToParseTasks(payload.to_owned()))
            }
        },
        None => Err(ExecutorError::UnableToParseTasks(payload.to_owned())),
    }
}

// ---------------------------------------------------------------------------
// The encoder and the grammar agree on string tokens
// ---------------------------------------------------------------------------
/// Texts the string encoding round-trips: everything but the raw control
/// characters that have no named escape.
pub open spec fn encodable_char(c: char) -> bool {
    c as u32 >= 32 || c == '\n' || c == '\r' || c == '\t'
}

pub open spec fn encodable_text(t: Seq<char>) -> bool {
    forall|i: int| 0 <= i < t.len() ==> encodable_char(#[trigger] t[i])
}

/// String-content parsing only reads the suffix it stands in: parsing past a
/// prefix `a` parses the rest alone, positions shifted.
proof fn lemma_body_shift(a: Seq<char>, b: Seq<char>, i: int)
    requires
        0 <= i,
    ensures
        spec_parse_string_body(a + b, a.len() + i) == (match spec_parse_string_body(b, i) {
            Some((t, j)) => Some((t, a.len() + j)),
            None => None,
        }),
    decreases b.len() - i,
{
    let s = a + b;
    if i >= b.len() {
    } else {
        assert(s[a.len() as int + i] == b[i]);
        if b[i] == '"' {
        } else if b[i] == '\\' {
            if i + 1 < b.len() {
                assert(s[a.len() as int + i + 1] == b[i + 1]);
                if b[i + 1] == 'u' {
                    if i + 5 < b.len() {
                        assert(s[a.len() as int + i + 2] == b[i + 2]);
                        assert(s[a.len() as int + i + 3] == b[i + 3]);
                        assert(s[a.len() as int + i + 4] == b[i + 4]);
                        assert(s[a.len() as int + i + 5] == b[i + 5]);
                        lemma_body_shift(a, b, i + 6);
                    }
                } else {
                    lemma_body_shift(a, b, i + 2);
                }
            }
        } else {
            lemma_body_shift(a, b, i + 1);
        }
    }
}

/// Escaping distributes over the first character.
proof fn lemma_escape_front(t: Seq<char>)
    requires
        t.len() > 0,
    ensures
        spec_escape(t) == spec_escape_char(t[0]) + spec_escape(t.subrange(1, t.len() as int)),
    decreases t.len(),
{
    if t.len() == 1 {
        assert(t.drop_last() =~= Seq::<char>::empty());
        assert(t.subrange(1, 1) =~= Seq::<char>::empty());
        assert(spec_escape(t) =~= spec_escape_char(t[0]) + spec_escape(t.subrange(1, 1)));
    } else {
        let front = t.drop_last();
        let tail = t.subrange(1, t.len() as int);
        lemma_escape_front(front);
        assert(front.subrange(1, front.len() as int) =~= tail.drop_last());
        assert(tail.last() == t.last());
        assert(spec_escape(t) =~= spec_escape_char(t[0]) + (spec_escape(tail.drop_last())
            + spec_escape_char(tail.last())));
    }
}

/// Parsing an escaped text followed by the closing quote recovers the text.
proof fn lemma_body_round_trip(t: Seq<char>, rest: Seq<char>)
    requires
        encodable_text(t),
    ensures
        spec_parse_string_body(spec_escape(t) + seq!['"'] + rest, 0) == Some(
            (t, spec_escape(t).len() as int + 1),
        ),
    decreases t.len(),
{
    let s = spec_escape(t) + seq!['"'] + rest;
    if t.len() == 0 {
        assert(s =~= seq!['"'] + rest);
        assert(s[0] == '"');
    } else {
        let c = t[0];
        let tail = t.subrange(1, t.len() as int);
        lemma_escape_front(t);
        assert(encodable_text(tail));
        lemma_body_round_trip(tail, rest);
        let inner = spec_escape(tail) + seq!['"'] + rest;
        let ec = spec_escape_char(c);
        assert(s =~= ec + inner);
        lemma_body_shift(ec, inner, 0);
        if c == '"' || c == '\\' || c == '\n' || c == '\r' || c == '\t' {
            assert(ec.len() == 2);
            assert(s[0] == '\\');
            assert(s[1] == ec[1]);
            assert(spec_unescape(ec[1]) == Some(c));
            assert(spec_parse_string_body(s, 2) == Some(
                (tail, ec.len() as int + spec_escape(tail).len() as int + 1),
            ));
            assert(seq![c] + tail =~= t);
        } else {
            assert(ec =~= seq![c]);
            assert(s[0] == c);
            assert(c as u32 >= 32);
            assert(spec_parse_string_body(s, 1) == Some(
                (tail, ec.len() as int + spec_escape(tail).len() as int + 1),
            ));
            assert(seq![c] + tail =~= t);
        }
    }
}

/// The encoder and the grammar agree on strings: a string token written by
/// the encoder, standing before any remainder, parses back to exactly the
/// text it encoded.  (Texts holding raw control characters without a named
/// escape are not encodable in the first place.)
pub proof fn lemma_string_token_round_trip(t: Seq<char>, rest: Seq<char>)
    requires
        encodable_text(t),
    ensures
        spec_parse_string(spec_encode_string(t) + rest, 0) == Some(
            (t, spec_encode_string(t).len() as int),
        ),
{
    let s = spec_encode_string(t) + rest;
    let inner = spec_escape(t) + seq!['"'] + rest;
    assert(s =~= seq!['"'] + inner);
    assert(s[0] == '"');
    lemma_body_shift(seq!['"'], inner, 0);
    lemma_body_round_trip(t, rest);
}

/// A fixed token parses where the encoder put it.
proof fn lemma_lit_here(pre: Seq<char>, lit: Seq<char>, rest: Seq<char>)
    ensures
        spec_parse_lit(pre + (lit + rest), pre.len() as int, lit) == Some(
            pre.len() as int + lit.len() as int,
        ),
{
    let s = pre + (lit + rest);
    assert(s.subrange(pre.len() as int, pre.len() as int + lit.len() as int) =~= lit);
}

/// A string token parses where the encoder put it.
proof fn lemma_string_at(pre: Seq<char>, t: Seq<char>, rest: Seq<char>)
    requires
        encodable_text(t),
    ensures
        spec_parse_string(pre + (spec_encode_string(t) + rest), pre.len() as int) == Some(
            (t, pre.len() as int + spec_encode_string(t).len() as int),
        ),
{
    let s = pre + (spec_encode_string(t) + rest);
    let inner = spec_escape(t) + seq!['"'] + rest;
    assert(s =~= (pre + seq!['"']) + inner);
    assert(s[pre.len() as int] == '"');
    lemma_body_shift(pre + seq!['"'], inner, 0);
    lemma_body_round_trip(t, rest);
}

pub open spec fn encodable_texts(v: Seq<Seq<char>>) -> bool {
    forall|i: int| 0 <= i < v.len() ==> encodable_text(#[trigger] v[i])
}

pub open spec fn encodable_opt_texts(o: Option<Seq<Seq<char>>>) -> bool {
    match o {
        None => true,
        Some(v) => encodable_texts(v),
    }
}

/// Array encoding distributes over the first element.
proof fn lemma_encode_items_front(v: Seq<Seq<char>>)
    requires
        v.len() > 0,
    ensures
        spec_encode_string_items(v) == spec_encode_string(v[0]) + (if v.len() > 1 {
            seq![','] + spec_encode_string_items(v.subrange(1, v.len() as int))
        } else {
            Seq::<char>::empty()
        }),
    decreases v.len(),
{
    if v.len() == 1 {
        assert(spec_encode_string_items(v) =~= spec_encode_string(v[0]) + Seq::<char>::empty());
    } else {
        let front = v.drop_last();
        let tail = v.subrange(1, v.len() as int);
        lemma_encode_items_front(front);
        assert(front.subrange(1, front.len() as int) =~= tail.drop_last());
        assert(tail.last() == v.last());
        assert(spec_encode_string_items(v) =~= spec_encode_string(v[0]) + (seq![',']
            + spec_encode_string_items(tail)));
    }
}

/// Encoded array elements followed by the closing bracket parse back to the
/// elements.
proof fn lemma_string_items_at(pre: Seq<char>, v: Seq<Seq<char>>, rest: Seq<char>)
    requires
        v.len() > 0,
        encodable_texts(v),
    ensures
        spec_parse_string_items(
            pre + (spec_encode_string_items(v) + (seq![']'] + rest)),
            pre.len() as int,
        ) == Some(
            (v, pre.len() as int + spec_encode_string_items(v).len() as int + 1),
        ),
    decreases v.len(),
{
    let s = pre + (spec_encode_string_items(v) + (seq![']'] + rest));
    lemma_encode_items_front(v);
    if v.len() == 1 {
        assert(s =~= pre + (spec_encode_string(v[0]) + (seq![']'] + rest)));
        lemma_string_at(pre, v[0], seq![']'] + rest);
        let j = pre.len() as int + spec_encode_string(v[0]).len() as int;
        assert(s =~= (pre + spec_encode_string(v[0])) + (seq![']'] + rest));
        assert(s[j] == ']');
        assert(seq![v[0]] =~= v);
    } else {
        let tail = v.subrange(1, v.len() as int);
        let after = seq![','] + (spec_encode_string_items(tail) + (seq![']'] + rest));
        assert(s =~= pre + (spec_encode_string(v[0]) + after));
        lemma_string_at(pre, v[0], after);
        let j = pre.len() as int + spec_encode_string(v[0]).len() as int;
        assert(s =~= (pre + spec_encode_string(v[0])) + after);
        assert(s[j] == ',');
        let pre2 = pre + spec_encode_string(v[0]) + seq![','];
        assert(s =~= pre2 + (spec_encode_string_items(tail) + (seq![']'] + rest)));
        assert(encodable_texts(tail));
        lemma_string_items_at(pre2, tail, rest);
        assert(seq![v[0]] + tail =~= v);
    }
}

/// A string array parses where the encoder put it.
proof fn lemma_string_array_at(pre: Seq<char>, v: Seq<Seq<char>>, rest: Seq<char>)
    requires
        encodable_texts(v),
    ensures
        spec_parse_string_array(
            pre + (spec_encode_string_array(v) + rest),
            pre.len() as int,
        ) == Some(
            (v, pre.len() as int + spec_encode_string_array(v).len() as int),
        ),
{
    let s = pre + (spec_encode_string_array(v) + rest);
    if v.len() == 0 {
        assert(spec_encode_string_array(v) =~= seq!['[', ']']);
        assert(s =~= (pre + seq!['[', ']']) + rest);
        assert(s[pre.len() as int] == '[');
        assert(s[pre.len() as int + 1] == ']');
        assert(Seq::<Seq<char>>::empty() =~= v);
    } else {
        lemma_encode_items_front(v);
        assert(s[pre.len() as int] == '[');
        let pre2 = pre + seq!['['];
        assert(s =~= pre2 + (spec_encode_string_items(v) + (seq![']'] + rest)));
        assert((spec_encode_string(v[0]))[0] == '"');
        assert(s[pre.len() as int + 1] == '"');
        lemma_string_items_at(pre2, v, rest);
    }
}

/// An optional string array parses where the encoder put it.
proof fn lemma_opt_string_array_at(pre: Seq<char>, o: Option<Seq<Seq<char>>>, rest: Seq<char>)
    requires
        encodable_opt_texts(o),
    ensures
        spec_parse_opt_string_array(
            pre + (spec_encode_opt_string_array(o) + rest),
            pre.len() as int,
        ) == Some(
            (o, pre.len() as int + spec_encode_opt_string_array(o).len() as int),
        ),
{
    reveal_strlit("null");
    let s = pre + (spec_encode_opt_string_array(o) + rest);
    match o {
        None => {
            lemma_lit_here(pre, "null"@, rest);
        },
        Some(v) => {
            lemma_string_array_at(pre, v, rest);
            assert(s[pre.len() as int] == '[');
            assert(spec_parse_lit(s, pre.len() as int, "null"@) is None) by {
                if pre.len() + "null"@.len() <= s.len() {
                    let sub = s.subrange(
                        pre.len() as int,
                        pre.len() as int + "null"@.len() as int,
                    );
                    if sub == "null"@ {
                        assert(sub[0] == s[pre.len() as int]);
                    }
                }
            }
        },
    }
}

pub open spec fn encodable_step(st: StepView) -> bool {
    &&& encodable_text(st.name)
    &&& encodable_text(st.image)
    &&& encodable_opt_texts(st.env)
    &&& encodable_opt_texts(st.input)
    &&& encodable_text(st.output)
}

pub open spec fn encodable_steps(v: Seq<StepView>) -> bool {
    forall|i: int| 0 <= i < v.len() ==> encodable_step(#[trigger] v[i])
}

/// Everything the encoder can faithfully write: a workflow whose strings
/// hold no raw control characters without a named escape.
pub open spec fn encodable_workflow(w: WorkflowView) -> bool {
    encodable_texts(w.output) && encodable_steps(w.steps)
}

/// The tail of a step object parses where the encoder put it.
#[verifier::rlimit(100)]
#[verifier::spinoff_prover]
proof fn lemma_step_tail_at(pre: Seq<char>, st: StepView, rest: Seq<char>)
    requires
        encodable_step(st),
    ensures
        spec_parse_step_tail(
            pre + ((",\"input\":"@ + spec_encode_opt_string_array(st.input) + ",\"output\":"@
                + spec_encode_string(st.output) + "}"@) + rest),
            pre.len() as int,
            st.name,
            st.image,
            st.env,
        ) == Some(
            (
                st,
                pre.len() as int + (",\"input\":"@ + spec_encode_opt_string_array(st.input)
                    + ",\"output\":"@ + spec_encode_string(st.output) + "}"@).len() as int,
            ),
        ),
{
    let ld = ",\"input\":"@;
    let le = ",\"output\":"@;
    let lf = "}"@;
    let e_input = spec_encode_opt_string_array(st.input);
    let e_output = spec_encode_string(st.output);
    let r9 = lf + rest;
    let r8 = e_output + r9;
    let r7 = le + r8;
    let r6 = e_input + r7;
    let t1 = ld + e_input;
    let t2 = t1 + le;
    let t3 = t2 + e_output;
    lemma_concat_associative(t3, lf, rest);
    lemma_concat_associative(t2, e_output, r9);
    lemma_concat_associative(t1, le, r8);
    lemma_concat_associative(ld, e_input, r7);
    lemma_lit_here(pre, ld, r6);
    let p7 = pre + ld;
    lemma_concat_associative(pre, ld, r6);
    lemma_opt_string_array_at(p7, st.input, r7);
    let p8 = p7 + e_input;
    lemma_concat_associative(p7, e_input, r7);
    lemma_lit_here(p8, le, r8);
    let p9 = p8 + le;
    lemma_concat_associative(p8, le, r8);
    lemma_string_at(p9, st.output, r9);
    let p10 = p9 + e_output;
    lemma_concat_associative(p9, e_output, r9);
    lemma_lit_here(p10, lf, rest);
    assert(StepView {
        name: st.name,
        image: st.image,
        env: st.env,
        input: st.input,
        output: st.output,
    } == st);
}

/// The middle of a step object parses where the encoder put it.
#[verifier::rlimit(100)]
#[verifier::spinoff_prover]
proof fn lemma_step_mid_at(pre: Seq<char>, st: StepView, rest: Seq<char>)
    requires
        encodable_step(st),
    ensures
        spec_parse_step_mid(
            pre + ((",\"image\":"@ + spec_encode_string(st.image) + ",\"env\":"@
                + spec_encode_opt_string_array(st.env) + (",\"input\":"@
                + spec_encode_opt_string_array(st.input) + ",\"output\":"@ + spec_encode_string(
                st.output,
            ) + "}"@)) + rest),
            pre.len() as int,
            st.name,
        ) == Some(
            (
                st,
                pre.len() as int + (",\"image\":"@ + spec_encode_string(st.image) + ",\"env\":"@
                    + spec_encode_opt_string_array(st.env) + (",\"input\":"@
                    + spec_encode_opt_string_array(st.input) + ",\"output\":"@
                    + spec_encode_string(st.output) + "}"@)).len() as int,
            ),
        ),
{
    let lb = ",\"image\":"@;
    let lc = ",\"env\":"@;
    let e_image = spec_encode_string(st.image);
    let e_env = spec_encode_opt_string_array(st.env);
    let tail = ",\"input\":"@ + spec_encode_opt_string_array(st.input) + ",\"output\":"@
        + spec_encode_string(st.output) + "}"@;
    let r5 = tail + rest;
    let r4 = e_env + r5;
    let r3 = lc + r4;
    let r2 = e_image + r3;
    let t1 = lb + e_image;
    let t2 = t1 + lc;
    let t3 = t2 + e_env;
    lemma_concat_associative(t3, tail, rest);
    lemma_concat_associative(t2, e_env, r5);
    lemma_concat_associative(t1, lc, r4);
    lemma_concat_associative(lb, e_image, r3);
    lemma_lit_here(pre, lb, r2);
    let p3 = pre + lb;
    lemma_concat_associative(pre, lb, r2);
    lemma_string_at(p3, st.image, r3);
    let p4 = p3 + e_image;
    lemma_concat_associative(p3, e_image, r3);
    lemma_lit_here(p4, lc, r4);
    let p5 = p4 + lc;
    lemma_concat_associative(p4, lc, r4);
    lemma_opt_string_array_at(p5, st.env, r5);
    let p6 = p5 + e_env;
    lemma_concat_associative(p5, e_env, r5);
    lemma_step_tail_at(p6, st, rest);
}

/// A step's encoding regrouped as its first token, its name, and the rest.
#[verifier::rlimit(100)]
#[verifier::spinoff_prover]
proof fn lemma_encode_step_split(st: StepView)
    ensures
        spec_encode_step(st) == ("{\"name\":"@ + spec_encode_string(st.name)) + (",\"image\":"@
            + spec_encode_string(st.image) + ",\"env\":"@ + spec_encode_opt_string_array(st.env)
            + (",\"input\":"@ + spec_encode_opt_string_array(st.input) + ",\"output\":"@
            + spec_encode_string(st.output) + "}"@)),
{
    assert(spec_encode_step(st) =~= ("{\"name\":"@ + spec_encode_string(st.name)) + (
    ",\"image\":"@ + spec_encode_string(st.image) + ",\"env\":"@ + spec_encode_opt_string_array(
        st.env,
    ) + (",\"input\":"@ + spec_encode_opt_string_array(st.input) + ",\"output\":"@
        + spec_encode_string(st.output) + "}"@)));
}

/// A step object parses where the encoder put it.
#[verifier::rlimit(100)]
#[verifier::spinoff_prover]
proof fn lemma_step_at(pre: Seq<char>, st: StepView, rest: Seq<char>)
    requires
        encodable_step(st),
    ensures
        spec_parse_step(pre + (spec_encode_step(st) + rest), pre.len() as int) == Some(
            (st, pre.len() as int + spec_encode_step(st).len() as int),
        ),
{
    let la = "{\"name\":"@;
    let e_name = spec_encode_string(st.name);
    let mid = ",\"image\":"@ + spec_encode_string(st.image) + ",\"env\":"@
        + spec_encode_opt_string_array(st.env) + (",\"input\":"@ + spec_encode_opt_string_array(
        st.input,
    ) + ",\"output\":"@ + spec_encode_string(st.output) + "}"@);
    let r1 = mid + rest;
    let r0 = e_name + r1;
    let t1 = la + e_name;
    lemma_encode_step_split(st);
    lemma_concat_associative(t1, mid, rest);
    lemma_concat_associative(la, e_name, r1);
    lemma_lit_here(pre, la, r0);
    let p1 = pre + la;
    lemma_concat_associative(pre, la, r0);
    lemma_string_at(p1, st.name, r1);
    let p2 = p1 + e_name;
    lemma_concat_associative(p1, e_name, r1);
    lemma_step_mid_at(p2, st, rest);
    let s = pre + (spec_encode_step(st) + rest);
    let i1 = p1.len() as int;
    let i2 = p2.len() as int;
    assert(spec_parse_lit(s, pre.len() as int, la) == Some(i1));
    assert(spec_parse_string(s, i1) == Some((st.name, i2)));
    assert(spec_parse_step_mid(s, i2, st.name) == Some(
        (st, pre.len() as int + spec_encode_step(st).len() as int),
    ));
}

/// A step object parses where the encoder put it, and the given character
/// stands right after it.
#[verifier::rlimit(100)]
#[verifier::spinoff_prover]
proof fn lemma_step_then(pre: Seq<char>, st: StepView, c: char, w: Seq<char>)
    requires
        encodable_step(st),
    ensures
        spec_parse_step(
            pre + (spec_encode_step(st) + (seq![c] + w)),
            pre.len() as int,
        ) == Some(
            (st, pre.len() as int + spec_encode_step(st).len() as int),
        ),
        (pre + (spec_encode_step(st) + (seq![c] + w)))[pre.len() as int + spec_encode_step(
            st,
        ).len() as int] == c,
{
    lemma_step_at(pre, st, seq![c] + w);
    let e0 = spec_encode_step(st);
    lemma_concat_associative(pre, e0, seq![c] + w);
    assert((pre + (e0 + (seq![c] + w)))[pre.len() as int + e0.len() as int] == c);
}

/// Step-list encoding distributes over the first element.
proof fn lemma_encode_step_items_front(v: Seq<StepView>)
    requires
        v.len() > 0,
    ensures
        spec_encode_step_items(v) == spec_encode_step(v[0]) + (if v.len() > 1 {
            seq![','] + spec_encode_step_items(v.subrange(1, v.len() as int))
        } else {
            Seq::<char>::empty()
        }),
    decreases v.len(),
{
    if v.len() == 1 {
        assert(spec_encode_step_items(v) =~= spec_encode_step(v[0]) + Seq::<char>::empty());
    } else {
        let front = v.drop_last();
        let tail = v.subrange(1, v.len() as int);
        lemma_encode_step_items_front(front);
        assert(front.subrange(1, front.len() as int) =~= tail.drop_last());
        assert(tail.last() == v.last());
        assert(spec_encode_step_items(v) =~= spec_encode_step(v[0]) + (seq![',']
            + spec_encode_step_items(tail)));
    }
}

/// Encoded steps followed by the closing bracket parse back to the steps.
#[verifier::rlimit(100)]
#[verifier::spinoff_prover]
proof fn lemma_step_items_at(pre: Seq<char>, v: Seq<StepView>, rest: Seq<char>)
    requires
        v.len() > 0,
        encodable_steps(v),
    ensures
        spec_parse_step_items(
            pre + (spec_encode_step_items(v) + (seq![']'] + rest)),
            pre.len() as int,
        ) == Some(
            (v, pre.len() as int + spec_encode_step_items(v).len() as int + 1),
        ),
    decreases v.len(),
{
    let close = seq![']'] + rest;
    let s = pre + (spec_encode_step_items(v) + close);
    let e0 = spec_encode_step(v[0]);
    let j = pre.len() as int + e0.len() as int;
    lemma_encode_step_items_front(v);
    if v.len() == 1 {
        assert(e0 + Seq::<char>::empty() =~= e0);
        lemma_step_then(pre, v[0], ']', rest);
        assert(spec_parse_step(s, pre.len() as int) == Some((v[0], j)));
        assert(s[j] == ']');
        assert(s.len() == pre.len() + e0.len() + 1 + rest.len());
        assert(j < s.len());
        assert(seq![v[0]] =~= v);
        assert(spec_parse_step_items(s, pre.len() as int) == Some((v, j + 1)));
    } else {
        let tail = v.subrange(1, v.len() as int);
        let w = spec_encode_step_items(tail) + close;
        lemma_concat_associative(e0, seq![','] + spec_encode_step_items(tail), close);
        lemma_concat_associative(seq![','], spec_encode_step_items(tail), close);
        assert(spec_encode_step_items(v) + close == e0 + (seq![','] + w));
        lemma_step_then(pre, v[0], ',', w);
        assert(spec_parse_step(s, pre.len() as int) == Some((v[0], j)));
        assert(s[j] == ',');
        assert(s.len() == pre.len() + e0.len() + 1 + w.len());
        assert(j < s.len());
        let pre2 = pre + e0 + seq![','];
        lemma_concat_associative(pre, e0, seq![','] + w);
        lemma_concat_associative(pre + e0, seq![','], w);
        assert(s == pre2 + (spec_encode_step_items(tail) + close));
        assert(encodable_steps(tail));
        lemma_step_items_at(pre2, tail, rest);
        let k = pre2.len() as int + spec_encode_step_items(tail).len() as int + 1;
        assert(spec_parse_step_items(s, j + 1) == Some((tail, k)));
        assert(seq![v[0]] + tail =~= v);
        assert(k == pre.len() as int + spec_encode_step_items(v).len() as int + 1);
        assert(spec_parse_step_items(s, pre.len() as int) == Some((seq![v[0]] + tail, k)));
    }
}

/// The encoder and the grammar agree on whole workflows: the text the engine
/// writes to a container's standard input (before the newline terminator)
/// parses back, under the library's own grammar, to exactly the workflow it
/// encoded — whatever remainder follows it.
#[verifier::rlimit(60)]
#[verifier::spinoff_prover]
pub proof fn lemma_workflow_round_trip(w: WorkflowView, rest: Seq<char>)
    requires
        encodable_workflow(w),
    ensures
        spec_parse_workflow(spec_encode_workflow(w) + rest, 0) == Some(
            (w, spec_encode_workflow(w).len() as int),
        ),
{
    let la = "{\"output\":"@;
    let lb = ",\"steps\":["@;
    let lf = "]}"@;
    let e_arr = spec_encode_string_array(w.output);
    let e_items = spec_encode_step_items(w.steps);
    let r2 = e_items + (lf + rest);
    let r1 = lb + r2;
    let r0 = e_arr + r1;
    let t1 = la + e_arr;
    let t2 = t1 + lb;
    let t3 = t2 + e_items;
    lemma_concat_associative(t3, lf, rest);
    lemma_concat_associative(t2, e_items, lf + rest);
    lemma_concat_associative(t1, lb, r2);
    lemma_concat_associative(la, e_arr, r1);
    assert(spec_encode_workflow(w) + rest == la + r0);
    let s = spec_encode_workflow(w) + rest;
    let pre = Seq::<char>::empty();
    assert(pre + (la + r0) =~= la + r0);
    lemma_lit_here(pre, la, r0);
    let p1 = pre + la;
    lemma_concat_associative(pre, la, r0);
    lemma_string_array_at(p1, w.output, r1);
    let p2 = p1 + e_arr;
    lemma_concat_associative(p1, e_arr, r1);
    lemma_lit_here(p2, lb, r2);
    let p3 = p2 + lb;
    lemma_concat_associative(p2, lb, r2);
    reveal_strlit("]}");
    reveal_strlit("}");
    reveal_strlit("{\"name\":");
    assert(lf =~= seq![']'] + "}"@);
    if w.steps.len() == 0 {
        assert(e_items + (lf + rest) =~= lf + rest);
        lemma_lit_here(p3, lf, rest);
        assert(w.steps =~= Seq::<StepView>::empty());
        assert(WorkflowView { output: w.output, steps: Seq::<StepView>::empty() } == w);
    } else {
        lemma_encode_step_items_front(w.steps);
        assert((spec_encode_step(w.steps[0]))[0] == '{');
        assert(e_items[0] == '{');
        assert(s[p3.len() as int] == '{');
        assert(spec_parse_lit(s, p3.len() as int, lf) is None) by {
            if p3.len() + lf.len() <= s.len() {
                let sub = s.subrange(p3.len() as int, p3.len() as int + lf.len() as int);
                if sub == lf {
                    assert(sub[0] == s[p3.len() as int]);
                }
            }
        }
        let tail_rest = "}"@ + rest;
        lemma_concat_associative(seq![']'], "}"@, rest);
        assert(lf + rest == seq![']'] + tail_rest);
        lemma_step_items_at(p3, w.steps, tail_rest);
        let p4 = p3 + e_items + seq![']'];
        lemma_concat_associative(p3, e_items, seq![']'] + tail_rest);
        lemma_concat_associative(p3 + e_items, seq![']'], tail_rest);
        lemma_lit_here(p4, "}"@, rest);
        assert(WorkflowView { output: w.output, steps: w.steps } == w);
    }
}

} // verus!
