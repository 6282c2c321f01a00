//! Parsing of duration expressions such as "1h 30m 10s".
//!
//! Grammar, with spaces and tabs allowed between tokens:
//! an expression is one or more components `number unit`, or a bare number of
//! seconds, surrounded by optional blanks. Units are matched ignoring ASCII
//! case; the components' values add up.

use vstd::prelude::*;
use vstd::string::StringSliceAdditionalSpecFns;

verus! {

/// Why an expression was refused.
#[derive(Debug, Clone, Copy, PartialEq, Eq, Structural)]
pub enum Reason {
    /// The text does not follow the grammar; the position is where it stops.
    UnexpectedInput,
    /// The total does not fit in 64 bits; the position is where the
    /// expression starts.
    Overflow,
}

/// A refused expression: the byte position and the reason.
#[derive(Debug, Clone, Copy, PartialEq, Eq, Structural)]
pub enum ParseError {
    Malformed(usize, Reason),
}

pub open spec fn is_blank(b: u8) -> bool {
    b == 32 || b == 9
}

pub open spec fn is_digit(b: u8) -> bool {
    48 <= b && b <= 57
}

pub open spec fn ascii_lower(b: u8) -> u8 {
    if 65 <= b && b <= 90 {
        (b + 32) as u8
    } else {
        b
    }
}

/// The first position at or after `i` that is not a blank.
pub open spec fn blanks_end(s: Seq<u8>, i: nat) -> nat
    decreases s.len() - i,
{
    if i < s.len() && is_blank(s[i as int]) {
        blanks_end(s, i + 1)
    } else {
        i
    }
}

/// The first position at or after `i` that is not a digit.
pub open spec fn digits_end(s: Seq<u8>, i: nat) -> nat
    decreases s.len() - i,
{
    if i < s.len() && is_digit(s[i as int]) {
        digits_end(s, i + 1)
    } else {
        i
    }
}

/// The number written by the digits in `s[i..j]`.
pub open spec fn digits_value(s: Seq<u8>, i: nat, j: nat) -> nat
    decreases j,
{
    if j <= i {
        0
    } else {
        digits_value(s, i, (j - 1) as nat) * 10 + (s[j - 1] - 48) as nat
    }
}

/// `w` stands at position `i` of `s`, ignoring ASCII case.
pub open spec fn word_at(s: Seq<u8>, i: nat, w: Seq<u8>) -> bool {
    &&& i + w.len() <= s.len()
    &&& forall|k: int| 0 <= k < w.len() ==> ascii_lower(#[trigger] s[i + k]) == ascii_lower(w[k])
}

/// The end of the first of `words[k..]` that stands at position `i`.
pub open spec fn first_word_end(s: Seq<u8>, i: nat, words: Seq<Seq<u8>>, k: nat) -> Option<nat>
    decreases words.len() - k,
{
    if k >= words.len() {
        None
    } else if word_at(s, i, words[k as int]) {
        Some(i + words[k as int].len())
    } else {
        first_word_end(s, i, words, k + 1)
    }
}

pub open spec fn hour_words() -> Seq<Seq<u8>> {
    seq![
        seq![104u8, 111u8, 117u8, 114u8, 115u8],  // hours
        seq![104u8, 111u8, 117u8, 114u8],  // hour
        seq![104u8, 114u8, 115u8],  // hrs
        seq![104u8, 114u8],  // hr
        seq![104u8],  // h
    ]
}

pub open spec fn minute_words() -> Seq<Seq<u8>> {
    seq![
        seq![109u8, 105u8, 110u8, 117u8, 116u8, 101u8, 115u8],  // minutes
        seq![109u8, 105u8, 110u8, 117u8, 116u8, 101u8],  // minute
        seq![109u8, 105u8, 110u8, 115u8],  // mins
        seq![109u8, 105u8, 110u8],  // min
        seq![109u8],  // m
    ]
}

pub open spec fn second_words() -> Seq<Seq<u8>> {
    seq![
        seq![115u8, 101u8, 99u8, 111u8, 110u8, 100u8, 115u8],  // seconds
        seq![115u8, 101u8, 99u8, 111u8, 110u8, 100u8],  // second
        seq![115u8, 101u8, 99u8, 115u8],  // secs
        seq![115u8, 101u8, 99u8],  // sec
        seq![115u8],  // s
    ]
}

/// The unit at position `i`: its size in seconds and where it ends. Hours are
/// tried first, then minutes, then seconds.
pub open spec fn unit_at(s: Seq<u8>, i: nat) -> Option<(nat, nat)> {
    match first_word_end(s, i, hour_words(), 0) {
        Some(e) => Some((3600nat, e)),
        None => match first_word_end(s, i, minute_words(), 0) {
            Some(e) => Some((60nat, e)),
            None => match first_word_end(s, i, second_words(), 0) {
                Some(e) => Some((1nat, e)),
                None => None,
            },
        },
    }
}

/// The component at `i` (blanks, a number, blanks, a unit): its value in
/// seconds and where it ends.
pub open spec fn component(s: Seq<u8>, i: nat) -> Option<(nat, nat)> {
    let j = blanks_end(s, i);
    let k = digits_end(s, j);
    if k > j {
        match unit_at(s, blanks_end(s, k)) {
            Some((m, e)) => Some((digits_value(s, j, k) * m, e)),
            None => None,
        }
    } else {
        None
    }
}

/// As many components as follow one another from `i`: their total, where
/// the last one ends, and how many there are.
pub open spec fn components(s: Seq<u8>, i: nat) -> (nat, nat, nat)
    decreases s.len() - i via components_decreases
{
    match component(s, i) {
        Some((v, e)) => {
            let rest = components(s, e);
            (v + rest.0, rest.1, rest.2 + 1)
        },
        None => (0, i, 0),
    }
}

#[via_fn]
proof fn components_decreases(s: Seq<u8>, i: nat) {
    lemma_component_progress(s, i);
}

proof fn lemma_first_word_end_bounds(s: Seq<u8>, i: nat, words: Seq<Seq<u8>>, k: nat)
    ensures
        first_word_end(s, i, words, k) matches Some(e) ==> i <= e <= s.len(),
    decreases words.len() - k,
{
    if k < words.len() {
        lemma_first_word_end_bounds(s, i, words, k + 1);
    }
}

/// A component takes up at least one byte and ends within the text.
proof fn lemma_component_progress(s: Seq<u8>, i: nat)
    ensures
        component(s, i) matches Some((v, e)) ==> i < e <= s.len(),
{
    if i <= s.len() {
        lemma_blanks_end_bounds(s, i);
        let j = blanks_end(s, i);
        lemma_digits_end_bounds(s, j);
        let k = digits_end(s, j);
        lemma_blanks_end_bounds(s, k);
        let l = blanks_end(s, k);
        lemma_first_word_end_bounds(s, l, hour_words(), 0);
        lemma_first_word_end_bounds(s, l, minute_words(), 0);
        lemma_first_word_end_bounds(s, l, second_words(), 0);
    }
}

/// The expression at the start of `s`, before any trailing blanks: its value
/// and where it ends. Components are preferred; failing them, a bare number.
pub open spec fn expression(s: Seq<u8>) -> Option<(nat, nat)> {
    let i = blanks_end(s, 0);
    let c = components(s, i);
    if c.2 > 0 {
        Some((c.0, c.1))
    } else if digits_end(s, i) > i {
        Some((digits_value(s, i, digits_end(s, i)), digits_end(s, i)))
    } else {
        None
    }
}

/// The outcome of parsing `s`: the total number of seconds, or where and why
/// the text was refused.
pub open spec fn parse_result(s: Seq<u8>) -> Result<u64, ParseError> {
    match expression(s) {
        None => Err(ParseError::Malformed(blanks_end(s, 0) as usize, Reason::UnexpectedInput)),
        Some((v, e)) => if blanks_end(s, e) < s.len() {
            Err(ParseError::Malformed(blanks_end(s, e) as usize, Reason::UnexpectedInput))
        } else if v > u64::MAX {
            Err(ParseError::Malformed(blanks_end(s, 0) as usize, Reason::Overflow))
        } else {
            Ok(v as u64)
        },
    }
}

proof fn lemma_blanks_end_bounds(s: Seq<u8>, i: nat)
    requires
        i <= s.len(),
    ensures
        i <= blanks_end(s, i) <= s.len(),
    decreases s.len() - i,
{
    if i < s.len() && is_blank(s[i as int]) {
        lemma_blanks_end_bounds(s, i + 1);
    }
}

proof fn lemma_digits_end_bounds(s: Seq<u8>, i: nat)
    requires
        i <= s.len(),
    ensures
        i <= digits_end(s, i) <= s.len(),
        forall|k: int| i <= k < digits_end(s, i) ==> is_digit(#[trigger] s[k]),
    decreases s.len() - i,
{
    if i < s.len() && is_digit(s[i as int]) {
        lemma_digits_end_bounds(s, i + 1);
    }
}

proof fn lemma_digits_value_grows(s: Seq<u8>, i: nat, j: nat, k: nat)
    requires
        i <= j <= k,
        forall|p: int| i <= p < k ==> is_digit(#[trigger] s[p]),
    ensures
        digits_value(s, i, j) <= digits_value(s, i, k),
    decreases k - j,
{
    if j < k {
        lemma_digits_value_grows(s, i, j, (k - 1) as nat);
    }
}

/// `s` and `t` differ at most in the case of ASCII letters.
pub open spec fn same_but_case(s: Seq<u8>, t: Seq<u8>) -> bool {
    &&& s.len() == t.len()
    &&& forall|k: int| 0 <= k < s.len() ==> ascii_lower(#[trigger] s[k]) == ascii_lower(t[k])
}

proof fn lemma_blanks_end_case(s: Seq<u8>, t: Seq<u8>, i: nat)
    requires
        same_but_case(s, t),
    ensures
        blanks_end(s, i) == blanks_end(t, i),
    decreases s.len() - i,
{
    if i < s.len() {
        assert(ascii_lower(s[i as int]) == ascii_lower(t[i as int]));
        lemma_blanks_end_case(s, t, i + 1);
    }
}

proof fn lemma_digits_end_case(s: Seq<u8>, t: Seq<u8>, i: nat)
    requires
        same_but_case(s, t),
    ensures
        digits_end(s, i) == digits_end(t, i),
    decreases s.len() - i,
{
    if i < s.len() {
        assert(ascii_lower(s[i as int]) == ascii_lower(t[i as int]));
        lemma_digits_end_case(s, t, i + 1);
    }
}

proof fn lemma_digits_value_case(s: Seq<u8>, t: Seq<u8>, i: nat, j: nat)
    requires
        same_but_case(s, t),
        j <= s.len(),
        forall|p: int| i <= p < j ==> is_digit(#[trigger] s[p]),
    ensures
        digits_value(s, i, j) == digits_value(t, i, j),
    decreases j,
{
    if j > i {
        assert(ascii_lower(s[j - 1]) == ascii_lower(t[j - 1]));
        assert(is_digit(s[j - 1]));
        lemma_digits_value_case(s, t, i, (j - 1) as nat);
    }
}

proof fn lemma_first_word_end_case(
    s: Seq<u8>,
    t: Seq<u8>,
    i: nat,
    words: Seq<Seq<u8>>,
    k: nat,
)
    requires
        same_but_case(s, t),
    ensures
        first_word_end(s, i, words, k) == first_word_end(t, i, words, k),
    decreases words.len() - k,
{
    if k < words.len() {
        let w = words[k as int];
        if i + w.len() <= s.len() {
            if word_at(s, i, w) {
                assert forall|q: int| 0 <= q < w.len() implies ascii_lower(#[trigger] t[i + q])
                    == ascii_lower(w[q]) by {
                    assert(ascii_lower(s[i + q]) == ascii_lower(t[i + q]));
                }
            }
            if word_at(t, i, w) {
                assert forall|q: int| 0 <= q < w.len() implies ascii_lower(#[trigger] s[i + q])
                    == ascii_lower(w[q]) by {
                    assert(ascii_lower(s[i + q]) == ascii_lower(t[i + q]));
                }
            }
        }
        assert(word_at(s, i, w) == word_at(t, i, w));
        lemma_first_word_end_case(s, t, i, words, k + 1);
    }
}

proof fn lemma_component_case(s: Seq<u8>, t: Seq<u8>, i: nat)
    requires
        same_but_case(s, t),
        i <= s.len(),
    ensures
        component(s, i) == component(t, i),
{
    let j = blanks_end(s, i);
    lemma_blanks_end_case(s, t, i);
    lemma_blanks_end_bounds(s, i);
    lemma_digits_end_case(s, t, j);
    lemma_digits_end_bounds(s, j);
    let k = digits_end(s, j);
    lemma_digits_value_case(s, t, j, k);
    lemma_blanks_end_case(s, t, k);
    let l = blanks_end(s, k);
    lemma_first_word_end_case(s, t, l, hour_words(), 0);
    lemma_first_word_end_case(s, t, l, minute_words(), 0);
    lemma_first_word_end_case(s, t, l, second_words(), 0);
}

proof fn lemma_components_case(s: Seq<u8>, t: Seq<u8>, i: nat)
    requires
        same_but_case(s, t),
        i <= s.len(),
    ensures
        components(s, i) == components(t, i),
    decreases s.len() - i,
{
    lemma_component_case(s, t, i);
    lemma_component_progress(s, i);
    if let Some((v, e)) = component(s, i) {
        lemma_components_case(s, t, e);
    }
}

/// Units are read without regard to case: two texts that differ only in the
/// case of their letters parse to the same result.
pub proof fn lemma_parse_ignores_case(s: Seq<u8>, t: Seq<u8>)
    requires
        same_but_case(s, t),
    ensures
        parse_result(s) == parse_result(t),
{
    lemma_blanks_end_case(s, t, 0);
    lemma_blanks_end_bounds(s, 0);
    let i = blanks_end(s, 0);
    lemma_components_case(s, t, i);
    lemma_digits_end_case(s, t, i);
    lemma_digits_end_bounds(s, i);
    lemma_digits_value_case(s, t, i, digits_end(s, i));
    let c = components(s, i);
    if c.2 > 0 {
        lemma_blanks_end_case(s, t, c.1);
    } else {
        lemma_blanks_end_case(s, t, digits_end(s, i));
    }
}

fn skip_blanks(s: &[u8], i: usize) -> (r: usize)
    requires
        i <= s@.len(),
    ensures
        r == blanks_end(s@, i as nat),
        i <= r <= s@.len(),
{
    let mut p = i;
    while p < s.len() && (s[p] == 32 || s[p] == 9)
        invariant
            i <= p <= s@.len(),
            blanks_end(s@, i as nat) == blanks_end(s@, p as nat),
        decreases s@.len() - p,
    {
        p = p + 1;
    }
    p
}


fn skip_digits(s: &[u8], i: usize) -> (r: usize)
    requires
        i <= s@.len(),
    ensures
        r == digits_end(s@, i as nat),
        i <= r <= s@.len(),
{
    let mut p = i;
    while p < s.len() && 48 <= s[p] && s[p] <= 57
        invariant
            i <= p <= s@.len(),
            digits_end(s@, i as nat) == digits_end(s@, p as nat),
        decreases s@.len() - p,
    {
        p = p + 1;
    }
    p
}

/// The number written by `s[i..j]`, or `None` when it does not fit in 64 bits.
fn read_number(s: &[u8], i: usize, j: usize) -> (r: Option<u64>)
    requires
        i <= j <= s@.len(),
        forall|p: int| i <= p < j ==> is_digit(#[trigger] s@[p]),
    ensures
        r is Some <==> digits_value(s@, i as nat, j as nat) <= u64::MAX,
        r matches Some(v) ==> v == digits_value(s@, i as nat, j as nat),
{
    let mut v: u64 = 0;
    let mut p = i;
    while p < j
        invariant
            i <= p <= j,
            j <= s@.len(),
            forall|q: int| i <= q < j ==> is_digit(#[trigger] s@[q]),
            v == digits_value(s@, i as nat, p as nat),
        decreases j - p,
    {
        let d = (s[p] - 48) as u64;
        match v.checked_mul(10) {
            Some(t) => match t.checked_add(d) {
                Some(n) => {
                    v = n;
                },
                None => {
                    proof {
                        lemma_digits_value_grows(s@, i as nat, (p + 1) as nat, j as nat);
                    }
                    return None;
                },
            },
            None => {
                proof {
                    lemma_digits_value_grows(s@, i as nat, (p + 1) as nat, j as nat);
                }
                return None;
            },
        }
        p = p + 1;
    }
    Some(v)
}

/// Whether `w` stands at position `i` of `s`, ignoring ASCII case.
fn match_word(s: &[u8], i: usize, w: &Vec<u8>) -> (r: bool)
    requires
        i <= s@.len(),
    ensures
        r == word_at(s@, i as nat, w@),
{
    if w.len() > s.len() - i {
        return false;
    }
    let n = s.len();
    let mut k: usize = 0;
    while k < w.len()
        invariant
            n == s@.len(),
            k <= w@.len(),
            i + w@.len() <= s@.len(),
            forall|q: int| 0 <= q < k ==> ascii_lower(#[trigger] s@[i + q]) == ascii_lower(w@[q]),
        decreases w@.len() - k,
    {
        let a = s[i + k];
        let b = w[k];
        let la: u8 = if 65 <= a && a <= 90 { a + 32 } else { a };
        let lb: u8 = if 65 <= b && b <= 90 { b + 32 } else { b };
        if la != lb {
            assert(ascii_lower(s@[i + k as int]) != ascii_lower(w@[k as int]));
            return false;
        }
        k = k + 1;
    }
    true
}

/// The end of the first of `words` that stands at position `i`.
fn match_first_word(s: &[u8], i: usize, words: &Vec<Vec<u8>>) -> (r: Option<usize>)
    requires
        i <= s@.len(),
    ensures
        r matches Some(e) ==> i <= e <= s@.len() && first_word_end(
            s@,
            i as nat,
            words.deep_view(),
            0,
        ) == Some(e as nat),
        r is None ==> first_word_end(s@, i as nat, words.deep_view(), 0) is None,
{
    let n = s.len();
    let mut k: usize = 0;
    while k < words.len()
        invariant
            n == s@.len(),
            k <= words@.len(),
            i <= s@.len(),
            first_word_end(s@, i as nat, words.deep_view(), 0) == first_word_end(
                s@,
                i as nat,
                words.deep_view(),
                k as nat,
            ),
        decreases words@.len() - k,
    {
        if match_word(s, i, &words[k]) {
            return Some(i + words[k].len());
        }
        k = k + 1;
    }
    None
}

fn hour_spellings() -> (r: Vec<Vec<u8>>)
    ensures
        r.deep_view() == hour_words(),
{
    let r = vec![
        vec![104u8, 111u8, 117u8, 114u8, 115u8],  // hours
        vec![104u8, 111u8, 117u8, 114u8],  // hour
        vec![104u8, 114u8, 115u8],  // hrs
        vec![104u8, 114u8],  // hr
        vec![104u8],  // h
    ];
    assert(r.deep_view() =~~= hour_words());
    r
}

fn minute_spellings() -> (r: Vec<Vec<u8>>)
    ensures
        r.deep_view() == minute_words(),
{
    let r = vec![
        vec![109u8, 105u8, 110u8, 117u8, 116u8, 101u8, 115u8],  // minutes
        vec![109u8, 105u8, 110u8, 117u8, 116u8, 101u8],  // minute
        vec![109u8, 105u8, 110u8, 115u8],  // mins
        vec![109u8, 105u8, 110u8],  // min
        vec![109u8],  // m
    ];
    assert(r.deep_view() =~~= minute_words());
    r
}

fn second_spellings() -> (r: Vec<Vec<u8>>)
    ensures
        r.deep_view() == second_words(),
{
    let r = vec![
        vec![115u8, 101u8, 99u8, 111u8, 110u8, 100u8, 115u8],  // seconds
        vec![115u8, 101u8, 99u8, 111u8, 110u8, 100u8],  // second
        vec![115u8, 101u8, 99u8, 115u8],  // secs
        vec![115u8, 101u8, 99u8],  // sec
        vec![115u8],  // s
    ];
    assert(r.deep_view() =~~= second_words());
    r
}

/// The unit at position `i`: its size in seconds and where it ends.
fn scan_unit(s: &[u8], i: usize) -> (r: Option<(u64, usize)>)
    requires
        i <= s@.len(),
    ensures
        r matches Some((m, e)) ==> i <= e <= s@.len() && m >= 1 && unit_at(s@, i as nat) == Some(
            (m as nat, e as nat),
        ),
        r is None ==> unit_at(s@, i as nat) is None,
{
    if let Some(e) = match_first_word(s, i, &hour_spellings()) {
        return Some((3600, e));
    }
    if let Some(e) = match_first_word(s, i, &minute_spellings()) {
        return Some((60, e));
    }
    if let Some(e) = match_first_word(s, i, &second_spellings()) {
        return Some((1, e));
    }
    None
}

/// The component at `i`: where its number starts and ends, the size of its
/// unit, and where it ends.
fn scan_component(s: &[u8], i: usize) -> (r: Option<(usize, usize, u64, usize)>)
    requires
        i <= s@.len(),
    ensures
        r is None <==> component(s@, i as nat) is None,
        r matches Some((j, k, m, e)) ==> {
            &&& i <= j < k <= e <= s@.len()
            &&& m >= 1
            &&& forall|p: int| j <= p < k ==> is_digit(#[trigger] s@[p])
            &&& component(s@, i as nat) == Some((digits_value(s@, j as nat, k as nat) * (m as nat), e as nat))
        },
{
    let j = skip_blanks(s, i);
    let k = skip_digits(s, j);
    proof {
        lemma_digits_end_bounds(s@, j as nat);
    }
    if k == j {
        return None;
    }
    let l = skip_blanks(s, k);
    match scan_unit(s, l) {
        Some((m, e)) => Some((j, k, m, e)),
        None => None,
    }
}

/// Parses a duration expression given as bytes.
pub fn parse_bytes(s: &[u8]) -> (r: Result<u64, ParseError>)
    ensures
        r == parse_result(s@),
{
    let start = skip_blanks(s, 0);
    let mut pos = start;
    let mut total: u64 = 0;
    let mut overflow = false;
    let mut count: usize = 0;
    let ghost mut acc: nat = 0;
    loop
        invariant
            start <= pos <= s@.len(),
            start == blanks_end(s@, 0),
            count <= pos,
            components(s@, start as nat) == (
                acc + components(s@, pos as nat).0,
                components(s@, pos as nat).1,
                (count + components(s@, pos as nat).2) as nat,
            ),
            !overflow ==> total == acc,
            overflow ==> acc > u64::MAX,
        ensures
            components(s@, pos as nat) == (0nat, pos as nat, 0nat),
        decreases s@.len() - pos,
    {
        match scan_component(s, pos) {
            None => {
                break;
            },
            Some((j, k, m, e)) => {
                let ghost v: nat = digits_value(s@, j as nat, k as nat) * (m as nat);
                proof {
                    assert(v >= digits_value(s@, j as nat, k as nat)) by (nonlinear_arith)
                        requires
                            m >= 1,
                            v == digits_value(s@, j as nat, k as nat) * m,
                    ;
                    acc = acc + v;
                }
                if !overflow {
                    match read_number(s, j, k) {
                        Some(d) => match d.checked_mul(m) {
                            Some(dm) => match total.checked_add(dm) {
                                Some(t) => {
                                    total = t;
                                },
                                None => {
                                    overflow = true;
                                },
                            },
                            None => {
                                overflow = true;
                            },
                        },
                        None => {
                            overflow = true;
                        },
                    }
                }
                pos = e;
                count = count + 1;
            },
        }
    }
    let end: usize;
    if count > 0 {
        end = pos;
    } else {
        let k = skip_digits(s, start);
        if k == start {
            return Err(ParseError::Malformed(start, Reason::UnexpectedInput));
        }
        proof {
            lemma_digits_end_bounds(s@, start as nat);
        }
        match read_number(s, start, k) {
            Some(d) => {
                total = d;
            },
            None => {
                overflow = true;
            },
        }
        end = k;
    }
    let tail = skip_blanks(s, end);
    if tail < s.len() {
        Err(ParseError::Malformed(tail, Reason::UnexpectedInput))
    } else if overflow {
        Err(ParseError::Malformed(start, Reason::Overflow))
    } else {
        Ok(total)
    }
}

/// Parses a duration expression such as "1h 30m 10s", "2 minutes" or "90"
/// into a number of seconds.
pub fn parse(text: &str) -> (r: Result<u64, ParseError>)
    ensures
        r == parse_result(text.spec_bytes()),
{
    parse_bytes(text.as_bytes())
}

} // verus!
