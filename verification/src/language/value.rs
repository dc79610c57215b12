//! The polymorphic runtime value of the template language, together with
//! its mathematical model and the by-name method dispatch used by function
//! call expressions.

use crate::language::error::{Error, SpecError};
use crate::language::rational::Rational;
use crate::text::{chars_to_string, digits_u128, int_to_chars, spec_digits, spec_int_str, str_chars};
use vstd::prelude::*;
use vstd::string::StringExecFns;

verus! {

broadcast use vstd::std_specs::vec::axiom_vec_index_decreases;

/// The mathematical model of a runtime value: machine integers widen to
/// unbounded integers, strings become character sequences, collections
/// become sequences.
pub enum SpecValue {
    Integer(int),
    Float(Rational),
    Str(Seq<char>),
    Boolean(bool),
    List(Seq<SpecValue>),
    Hash(Seq<(Seq<char>, SpecValue)>),
    Null,
}

/// A runtime value: the result of evaluating an expression, and the leaf
/// payload of literal tokens. Fractional values are exact fractions.
#[derive(Debug, PartialEq)]
pub enum Value {
    Integer(i64),
    Float(Rational),
    String(String),
    Boolean(bool),
    List(Vec<Value>),
    Hash(Vec<(String, Value)>),
    Null,
}

/// The models of a sequence of values, elementwise.
pub open spec fn view_values(s: Seq<Value>) -> Seq<SpecValue>
    decreases s,
{
    if s.len() == 0 {
        Seq::empty()
    } else {
        seq![view_value(s[0])] + view_values(s.drop_first())
    }
}

/// The models of a sequence of named entries, elementwise.
pub open spec fn view_entries(s: Seq<(String, Value)>) -> Seq<(Seq<char>, SpecValue)>
    decreases s,
{
    if s.len() == 0 {
        Seq::empty()
    } else {
        seq![(s[0].0@, view_value(s[0].1))] + view_entries(s.drop_first())
    }
}

/// The model of one value.
pub open spec fn view_value(v: Value) -> SpecValue
    decreases v,
{
    match v {
        Value::Integer(n) => SpecValue::Integer(n as int),
        Value::Float(r) => SpecValue::Float(r),
        Value::String(s) => SpecValue::Str(s@),
        Value::Boolean(b) => SpecValue::Boolean(b),
        Value::List(l) => SpecValue::List(view_values(l@)),
        Value::Hash(h) => SpecValue::Hash(view_entries(h@)),
        Value::Null => SpecValue::Null,
    }
}

/// The model of a value sequence is its elementwise model.
pub proof fn lemma_view_values(s: Seq<Value>)
    ensures
        view_values(s).len() == s.len(),
        forall|i: int| 0 <= i < s.len() ==> #[trigger] view_values(s)[i] == view_value(s[i]),
    decreases s,
{
    if s.len() > 0 {
        lemma_view_values(s.drop_first());
    }
}

/// The model of an entry sequence is its elementwise model.
pub proof fn lemma_view_entries(s: Seq<(String, Value)>)
    ensures
        view_entries(s).len() == s.len(),
        forall|i: int|
            0 <= i < s.len() ==> #[trigger] view_entries(s)[i] == (s[i].0@, view_value(s[i].1)),
    decreases s,
{
    if s.len() > 0 {
        lemma_view_entries(s.drop_first());
    }
}

impl DeepView for Value {
    type V = SpecValue;

    open spec fn deep_view(&self) -> SpecValue {
        view_value(*self)
    }
}

/// Validity of a value: every fraction inside it is well formed.
pub open spec fn wf_value(v: Value) -> bool
    decreases v,
{
    match v {
        Value::Float(r) => r.wf(),
        Value::List(l) => forall|i: int| 0 <= i < l@.len() ==> wf_value(#[trigger] l@[i]),
        Value::Hash(h) => forall|i: int| 0 <= i < h@.len() ==> wf_value(#[trigger] h@[i].1),
        _ => true,
    }
}

/// Validity of every value in a sequence.
pub open spec fn wf_values(s: Seq<Value>) -> bool {
    forall|i: int| 0 <= i < s.len() ==> wf_value(#[trigger] s[i])
}

/// A structural copy of every element of a value sequence.
pub fn clone_values(l: &Vec<Value>) -> (out: Vec<Value>)
    ensures
        out@.len() == l@.len(),
        view_values(out@) == view_values(l@),
        forall|j: int| 0 <= j < l@.len() ==> (wf_value(#[trigger] l@[j]) ==> wf_value(out@[j])),
    decreases l@,
{
    let mut out: Vec<Value> = Vec::new();
    let mut i: usize = 0;
    while i < l.len()
        invariant
            i <= l@.len(),
            out@.len() == i,
            forall|j: int| 0 <= j < i ==> #[trigger] view_value(out@[j]) == view_value(l@[j]),
            forall|j: int| 0 <= j < i ==> (wf_value(#[trigger] l@[j]) ==> wf_value(out@[j])),
        decreases l@.len() - i,
    {
        out.push(clone_value(&l[i]));
        i = i + 1;
    }
    proof {
        lemma_view_values(out@);
        lemma_view_values(l@);
        assert(view_values(out@) =~= view_values(l@));
    }
    out
}

/// A structural copy of every entry of a name-to-value sequence.
pub fn clone_entries(h: &Vec<(String, Value)>) -> (out: Vec<(String, Value)>)
    ensures
        out@.len() == h@.len(),
        view_entries(out@) == view_entries(h@),
        forall|j: int|
            0 <= j < h@.len() ==> (wf_value(#[trigger] h@[j].1) ==> wf_value(out@[j].1)),
    decreases h@,
{
    let mut out: Vec<(String, Value)> = Vec::new();
    let mut i: usize = 0;
    while i < h.len()
        invariant
            i <= h@.len(),
            out@.len() == i,
            forall|j: int| 0 <= j < i ==> #[trigger] view_value(out@[j].1) == view_value(h@[j].1),
            forall|j: int| 0 <= j < i ==> #[trigger] out@[j].0@ == h@[j].0@,
            forall|j: int| 0 <= j < i ==> (wf_value(#[trigger] h@[j].1) ==> wf_value(out@[j].1)),
        decreases h@.len() - i,
    {
        let entry = &h[i];
        out.push((entry.0.clone(), clone_value(&entry.1)));
        i = i + 1;
    }
    proof {
        lemma_view_entries(out@);
        lemma_view_entries(h@);
        assert(view_entries(out@) =~= view_entries(h@));
    }
    out
}

/// A structural copy: the copy has the same model as the original, and is
/// valid whenever the original is.
pub fn clone_value(v: &Value) -> (r: Value)
    ensures
        r.deep_view() == v.deep_view(),
        wf_value(*v) ==> wf_value(r),
    decreases *v,
{
    match v {
        Value::Integer(n) => Value::Integer(*n),
        Value::Float(r) => Value::Float(*r),
        Value::String(s) => Value::String(s.clone()),
        Value::Boolean(b) => Value::Boolean(*b),
        Value::List(l) => {
            proof {
                assert(decreases_to!(*v => v->List_0));
                assert(decreases_to!(v->List_0 => v->List_0@));
            }
            let out = clone_values(l);
            proof {
                if wf_value(*v) {
                    assert forall|j: int| 0 <= j < out@.len() implies wf_value(
                        #[trigger] out@[j],
                    ) by {
                        assert(wf_value(l@[j]));
                    }
                }
            }
            Value::List(out)
        },
        Value::Hash(h) => {
            proof {
                assert(decreases_to!(*v => v->Hash_0));
                assert(decreases_to!(v->Hash_0 => v->Hash_0@));
            }
            let out = clone_entries(h);
            proof {
                if wf_value(*v) {
                    assert forall|j: int| 0 <= j < out@.len() implies wf_value(
                        #[trigger] out@[j].1,
                    ) by {
                        assert(wf_value(h@[j].1));
                    }
                }
            }
            Value::Hash(out)
        },
        Value::Null => Value::Null,
    }
}

/// Whether two string slices hold the same characters, compared one
/// character at a time.
pub(crate) fn str_eq(a: &str, b: &str) -> (r: bool)
    ensures
        r == (a@ == b@),
{
    let ca = str_chars(a);
    let cb = str_chars(b);
    if ca.len() != cb.len() {
        return false;
    }
    let mut i: usize = 0;
    while i < ca.len()
        invariant
            ca@ == a@,
            cb@ == b@,
            ca@.len() == cb@.len(),
            i <= ca@.len(),
            forall|j: int| 0 <= j < i ==> ca@[j] == cb@[j],
        decreases ca@.len() - i,
    {
        if ca[i] != cb[i] {
            return false;
        }
        i = i + 1;
    }
    proof {
        assert(a@ =~= b@);
    }
    true
}

/// The upper-case form of one character: ASCII letters are mapped, all
/// other characters stay.
pub open spec fn upper_char(c: char) -> char {
    if 97 <= c as u32 <= 122 {
        (((c as u32) - 32) as u8) as char
    } else {
        c
    }
}

/// The lower-case form of one character: ASCII letters are mapped, all
/// other characters stay.
pub open spec fn lower_char(c: char) -> char {
    if 65 <= c as u32 <= 90 {
        (((c as u32) + 32) as u8) as char
    } else {
        c
    }
}

/// The upper-case form of a character sequence.
pub open spec fn upper_seq(s: Seq<char>) -> Seq<char> {
    Seq::new(s.len(), |i: int| upper_char(s[i]))
}

/// The lower-case form of a character sequence.
pub open spec fn lower_seq(s: Seq<char>) -> Seq<char> {
    Seq::new(s.len(), |i: int| lower_char(s[i]))
}

/// Upper-cases a string, ASCII letter by letter.
pub(crate) fn upcase_str(s: &String) -> (r: String)
    ensures
        r@ == upper_seq(s@),
{
    let chars = str_chars(s.as_str());
    let mut out: Vec<char> = Vec::new();
    let mut i: usize = 0;
    while i < chars.len()
        invariant
            chars@ == s@,
            i <= chars@.len(),
            out@ == upper_seq(s@).take(i as int),
        decreases chars@.len() - i,
    {
        let c = chars[i];
        let u = c as u32;
        if 97 <= u && u <= 122 {
            out.push(((u - 32) as u8) as char);
        } else {
            out.push(c);
        }
        i = i + 1;
        proof {
            assert(out@ =~= upper_seq(s@).take(i as int));
        }
    }
    proof {
        assert(upper_seq(s@).take(s@.len() as int) =~= upper_seq(s@));
    }
    chars_to_string(&out)
}

/// Lower-cases a string, ASCII letter by letter.
pub(crate) fn downcase_str(s: &String) -> (r: String)
    ensures
        r@ == lower_seq(s@),
{
    let chars = str_chars(s.as_str());
    let mut out: Vec<char> = Vec::new();
    let mut i: usize = 0;
    while i < chars.len()
        invariant
            chars@ == s@,
            i <= chars@.len(),
            out@ == lower_seq(s@).take(i as int),
        decreases chars@.len() - i,
    {
        let c = chars[i];
        let u = c as u32;
        if 65 <= u && u <= 90 {
            out.push(((u + 32) as u8) as char);
        } else {
            out.push(c);
        }
        i = i + 1;
        proof {
            assert(out@ =~= lower_seq(s@).take(i as int));
        }
    }
    proof {
        assert(lower_seq(s@).take(s@.len() as int) =~= lower_seq(s@));
    }
    chars_to_string(&out)
}

/// Whether a character counts as trimmable whitespace.
pub open spec fn is_space(c: char) -> bool {
    c == ' ' || c == '\t' || c == '\n' || c == '\r'
}

/// The sequence with leading whitespace removed.
pub open spec fn trim_front(s: Seq<char>) -> Seq<char>
    decreases s.len(),
{
    if s.len() > 0 && is_space(s[0]) {
        trim_front(s.drop_first())
    } else {
        s
    }
}

/// The sequence with trailing whitespace removed.
pub open spec fn trim_back(s: Seq<char>) -> Seq<char>
    decreases s.len(),
{
    if s.len() > 0 && is_space(s[s.len() - 1]) {
        trim_back(s.drop_last())
    } else {
        s
    }
}

/// The sequence with whitespace removed from both ends.
pub open spec fn spec_trim(s: Seq<char>) -> Seq<char> {
    trim_back(trim_front(s))
}

/// Whether a character counts as trimmable whitespace.
pub(crate) fn space_char(c: char) -> (r: bool)
    ensures
        r == is_space(c),
{
    c == ' ' || c == '\t' || c == '\n' || c == '\r'
}

/// Trims ASCII whitespace from both ends of a string.
pub(crate) fn trim_str(s: &String) -> (r: String)
    ensures
        r@ == spec_trim(s@),
{
    let chars = str_chars(s.as_str());
    let n = chars.len();
    let mut start: usize = 0;
    proof {
        assert(s@.skip(0) =~= s@);
    }
    while start < n && space_char(chars[start])
        invariant
            chars@ == s@,
            n == chars@.len(),
            start <= n,
            trim_front(s@) == trim_front(s@.skip(start as int)),
        decreases n - start,
    {
        proof {
            assert(s@.skip(start as int).drop_first() =~= s@.skip(start as int + 1));
        }
        start = start + 1;
    }
    proof {
        assert(trim_front(s@) == s@.skip(start as int));
    }
    let mut end: usize = n;
    while end > start && space_char(chars[end - 1])
        invariant
            chars@ == s@,
            n == chars@.len(),
            start <= end <= n,
            trim_front(s@) == s@.skip(start as int),
            trim_back(s@.skip(start as int)) == trim_back(
                s@.subrange(start as int, end as int),
            ),
        decreases end,
    {
        proof {
            assert(s@.skip(start as int) =~= s@.subrange(start as int, s@.len() as int));
            assert(s@.subrange(start as int, end as int).drop_last() =~= s@.subrange(
                start as int,
                end as int - 1,
            ));
        }
        end = end - 1;
    }
    proof {
        assert(s@.skip(start as int) =~= s@.subrange(start as int, s@.len() as int));
        assert(trim_back(s@.subrange(start as int, end as int)) == s@.subrange(
            start as int,
            end as int,
        ));
    }
    let mut out: Vec<char> = Vec::new();
    let mut i: usize = start;
    while i < end
        invariant
            chars@ == s@,
            start <= i <= end <= chars@.len(),
            out@ == s@.subrange(start as int, i as int),
        decreases end - i,
    {
        out.push(chars[i]);
        i = i + 1;
        proof {
            assert(out@ =~= s@.subrange(start as int, i as int));
        }
    }
    chars_to_string(&out)
}

/// The sequence repeated a number of times.
pub open spec fn repeat_seq<T>(s: Seq<T>, n: nat) -> Seq<T>
    decreases n,
{
    if n == 0 {
        Seq::empty()
    } else {
        repeat_seq(s, (n - 1) as nat) + s
    }
}

/// Repeats a character sequence.
pub(crate) fn repeat_chars(v: &Vec<char>, n: u64) -> (r: Vec<char>)
    ensures
        r@ == repeat_seq(v@, n as nat),
{
    let mut out: Vec<char> = Vec::new();
    let mut k: u64 = 0;
    while k < n
        invariant
            k <= n,
            out@ == repeat_seq(v@, k as nat),
        decreases n - k,
    {
        let mut copy = Vec::new();
        copy.extend_from_slice(v.as_slice());
        proof {
            assert(copy@ =~= v@);
        }
        out.append(&mut copy);
        k = k + 1;
    }
    out
}

/// The model of a concatenation is the concatenation of the models.
pub proof fn lemma_view_values_concat(a: Seq<Value>, b: Seq<Value>)
    ensures
        view_values(a + b) == view_values(a) + view_values(b),
{
    lemma_view_values(a);
    lemma_view_values(b);
    lemma_view_values(a + b);
    assert(view_values(a + b) =~= view_values(a) + view_values(b));
}

/// Repeats a value sequence, copying every element.
pub(crate) fn repeat_values(l: &Vec<Value>, n: u64) -> (r: Vec<Value>)
    ensures
        view_values(r@) == repeat_seq(view_values(l@), n as nat),
        wf_values(l@) ==> wf_values(r@),
{
    let mut out: Vec<Value> = Vec::new();
    let mut k: u64 = 0;
    while k < n
        invariant
            k <= n,
            view_values(out@) == repeat_seq(view_values(l@), k as nat),
            wf_values(l@) ==> wf_values(out@),
        decreases n - k,
    {
        let ghost prefix = out@;
        let mut copy = clone_values(l);
        let ghost copyview = copy@;
        out.append(&mut copy);
        k = k + 1;
        proof {
            assert(out@ == prefix + copyview);
            lemma_view_values_concat(prefix, copyview);
            if wf_values(l@) {
                assert forall|j: int| 0 <= j < out@.len() implies wf_value(
                    #[trigger] out@[j],
                ) by {
                    if j < prefix.len() {
                        assert(out@[j] == prefix[j]);
                    } else {
                        assert(out@[j] == copyview[j - prefix.len()]);
                        assert(wf_value(l@[j - prefix.len()]));
                    }
                }
            }
        }
    }
    out
}

/// The first position at or after `i` where `t` occurs in `s`.
pub open spec fn find_from(s: Seq<char>, t: Seq<char>, i: nat) -> Option<int>
    decreases s.len() + 1 - i,
{
    if i + t.len() > s.len() {
        None
    } else if s.subrange(i as int, (i + t.len()) as int) == t {
        Some(i as int)
    } else {
        find_from(s, t, i + 1)
    }
}

/// The sequence with the first occurrence of `t` removed; the sequence
/// itself when `t` does not occur in it.
pub open spec fn spec_remove_first(s: Seq<char>, t: Seq<char>) -> Seq<char> {
    match find_from(s, t, 0) {
        Some(i) => s.subrange(0, i) + s.subrange(i + t.len() as int, s.len() as int),
        None => s,
    }
}

/// Whether `t` occurs in `s` starting exactly at `i`.
pub(crate) fn matches_at(s: &Vec<char>, t: &Vec<char>, i: usize) -> (r: bool)
    requires
        i + t@.len() <= s@.len(),
    ensures
        r == (s@.subrange(i as int, i as int + t@.len() as int) == t@),
{
    let n = s.len();
    let m = t.len();
    let mut k: usize = 0;
    while k < m
        invariant
            n == s@.len(),
            m == t@.len(),
            i + m <= n,
            k <= m,
            forall|j: int| 0 <= j < k ==> s@[i + j] == t@[j],
        decreases t@.len() - k,
    {
        if s[i + k] != t[k] {
            proof {
                let ghost sub = s@.subrange(i as int, i as int + t@.len() as int);
                assert(sub[k as int] != t@[k as int]);
            }
            return false;
        }
        k = k + 1;
    }
    proof {
        assert(s@.subrange(i as int, i as int + t@.len() as int) =~= t@);
    }
    true
}

/// Removes the first occurrence of `t` from `s`; returns `s` unchanged
/// when `t` does not occur.
pub(crate) fn remove_first_chars(s: &Vec<char>, t: &Vec<char>) -> (r: Vec<char>)
    ensures
        r@ == spec_remove_first(s@, t@),
{
    if t.len() > s.len() {
        let mut out: Vec<char> = Vec::new();
        out.extend_from_slice(s.as_slice());
        proof {
            assert(out@ =~= s@);
        }
        return out;
    }
    if t.len() == 0 {
        // The empty needle occurs at the front; removing it changes nothing.
        let mut out: Vec<char> = Vec::new();
        out.extend_from_slice(s.as_slice());
        proof {
            assert(s@.subrange(0, 0) =~= t@);
            assert(out@ =~= spec_remove_first(s@, t@));
        }
        return out;
    }
    let slen = s.len();
    let limit = slen - t.len();
    let mut i: usize = 0;
    let mut found: Option<usize> = None;
    while found.is_none() && i <= limit
        invariant
            1 <= t@.len() <= s@.len(),
            slen == s@.len(),
            limit == s@.len() - t@.len(),
            limit < slen,
            i <= limit + 1,
            found is None ==> find_from(s@, t@, 0) == find_from(s@, t@, i as nat),
            found is Some ==> found->0 + t@.len() <= s@.len() && find_from(s@, t@, 0) == Some(
                found->0 as int,
            ),
        decreases limit + 1 - i, (if found is None {
            1int
        } else {
            0int
        }),
    {
        if matches_at(s, t, i) {
            found = Some(i);
        } else {
            i = i + 1;
        }
    }
    proof {
        if found is None {
            assert(find_from(s@, t@, i as nat) is None);
        }
    }
    match found {
        Some(at) => {
            let mut out: Vec<char> = Vec::new();
            let mut k: usize = 0;
            while k < at
                invariant
                    at + t@.len() <= s@.len(),
                    k <= at,
                    out@ == s@.subrange(0, k as int),
                decreases at - k,
            {
                out.push(s[k]);
                k = k + 1;
                proof {
                    assert(out@ =~= s@.subrange(0, k as int));
                }
            }
            let mut k2: usize = at + t.len();
            while k2 < s.len()
                invariant
                    at + t@.len() <= k2 <= s@.len(),
                    out@ == s@.subrange(0, at as int) + s@.subrange(
                        at as int + t@.len() as int,
                        k2 as int,
                    ),
                decreases s@.len() - k2,
            {
                out.push(s[k2]);
                k2 = k2 + 1;
                proof {
                    assert(out@ =~= s@.subrange(0, at as int) + s@.subrange(
                        at as int + t@.len() as int,
                        k2 as int,
                    ));
                }
            }
            proof {
                assert(out@ =~= spec_remove_first(s@, t@));
            }
            out
        },
        None => {
            let mut out: Vec<char> = Vec::new();
            out.extend_from_slice(s.as_slice());
            proof {
                assert(out@ =~= s@);
            }
            out
        },
    }
}

/// Whether a character is a decimal digit.
pub open spec fn is_digit(c: char) -> bool {
    48 <= c as u32 <= 57
}

/// Whether a nonempty sequence consists of decimal digits only.
pub open spec fn all_digits(s: Seq<char>) -> bool {
    s.len() > 0 && forall|i: int| 0 <= i < s.len() ==> is_digit(#[trigger] s[i])
}

/// The number written by a digit sequence.
pub open spec fn digits_value(s: Seq<char>) -> int
    decreases s.len(),
{
    if s.len() == 0 {
        0
    } else {
        digits_value(s.drop_last()) * 10 + (s[s.len() - 1] as u32 - 48)
    }
}

/// How a method name reads as a list index.
pub(crate) enum ParsedIndex {
    /// The name is not a digit sequence.
    NotNumber,
    /// The digit sequence's value, when it fits a machine word.
    Index(u64),
    /// The name is a digit sequence whose value exceeds the machine range,
    /// so it cannot index any list that fits in memory.
    TooLarge,
}

/// Reads a method name as a decimal list index.
pub(crate) fn parse_index(chars: &Vec<char>) -> (r: ParsedIndex)
    ensures
        r is NotNumber <==> !all_digits(chars@),
        r is Index ==> all_digits(chars@) && digits_value(chars@) == r->Index_0 as int,
        r is TooLarge ==> all_digits(chars@) && digits_value(chars@) > u64::MAX,
{
    if chars.len() == 0 {
        return ParsedIndex::NotNumber;
    }
    let mut acc: u128 = 0;
    let mut i: usize = 0;
    while i < chars.len()
        invariant
            i <= chars@.len(),
            forall|j: int| 0 <= j < i ==> is_digit(#[trigger] chars@[j]),
            digits_value(chars@.take(i as int)) <= u64::MAX ==> acc == digits_value(
                chars@.take(i as int),
            ),
            digits_value(chars@.take(i as int)) > u64::MAX ==> acc
                == 0x10000000000000000u128,
            acc <= 0x10000000000000000u128,
        decreases chars@.len() - i,
    {
        let c = chars[i];
        let u = c as u32;
        if u < 48 || u > 57 {
            return ParsedIndex::NotNumber;
        }
        let ghost before = chars@.take(i as int);
        let ghost after = chars@.take(i as int + 1);
        proof {
            assert(after.drop_last() =~= before);
            assert(after[after.len() - 1] == chars@[i as int]);
            if digits_value(before) > u64::MAX {
                assert(digits_value(before) * 10 >= digits_value(before)) by (nonlinear_arith)
                    requires
                        digits_value(before) >= 0,
                ;
            }
        }
        let v = acc * 10 + (u - 48) as u128;
        if v > u64::MAX as u128 {
            acc = 0x10000000000000000u128;
        } else {
            acc = v;
        }
        i = i + 1;
    }
    proof {
        assert(chars@.take(chars@.len() as int) =~= chars@);
    }
    if acc > u64::MAX as u128 {
        ParsedIndex::TooLarge
    } else {
        ParsedIndex::Index(acc as u64)
    }
}

/// The decimal digits after the point for the fraction `rem / den`,
/// produced by long division; `None` when the expansion does not end
/// within the given number of digits.
pub open spec fn frac_digits(rem: nat, den: nat, fuel: nat) -> Option<Seq<char>>
    recommends
        1 <= den,
        rem < den,
    decreases fuel,
{
    if rem == 0 {
        Some(Seq::empty())
    } else if fuel == 0 {
        None
    } else {
        match frac_digits((rem * 10) % den, den, (fuel - 1) as nat) {
            Some(t) => Some(seq![crate::text::digit_char(((rem * 10) / den) as nat)] + t),
            None => None,
        }
    }
}

/// How many long-division digits are attempted before a fraction is shown
/// as `numerator/denominator` instead: enough for every fraction whose
/// denominator divides a power of ten.
pub open spec fn frac_digit_limit() -> nat {
    130
}

/// The decimal rendering of a fraction: the exact decimal expansion when
/// it ends, the two parts joined by a slash otherwise. A whole number is
/// rendered without a point.
pub open spec fn spec_float_str(r: Rational) -> Seq<char>
    recommends
        r.wf(),
{
    let m = (if r.numerator() < 0 {
        -r.numerator()
    } else {
        r.numerator()
    }) as nat;
    let den = r.denominator() as nat;
    let sign: Seq<char> = if r.numerator() < 0 {
        seq!['-']
    } else {
        Seq::empty()
    };
    match frac_digits((m % den) as nat, den, frac_digit_limit()) {
        Some(f) => if f.len() == 0 {
            sign + spec_digits((m / den) as nat)
        } else {
            sign + spec_digits((m / den) as nat) + seq!['.'] + f
        },
        None => sign + spec_digits(m) + seq!['/'] + spec_digits(den),
    }
}

/// The long-division digits of `rem / den`, or `None` when the expansion
/// does not end within `fuel` digits.
pub(crate) fn frac_digits_exec(rem: u64, den: u64, fuel: u64) -> (r: Option<Vec<char>>)
    requires
        1 <= den,
        rem < den,
    ensures
        match r {
            Some(v) => frac_digits(rem as nat, den as nat, fuel as nat) == Some(v@),
            None => frac_digits(rem as nat, den as nat, fuel as nat) is None,
        },
    decreases fuel,
{
    if rem == 0 {
        Some(Vec::new())
    } else if fuel == 0 {
        None
    } else {
        proof {
            vstd::arithmetic::mul::lemma_mul_strict_inequality(
                rem as int,
                den as int,
                10,
            );
            vstd::arithmetic::div_mod::lemma_multiply_divide_lt(
                rem as int * 10,
                den as int,
                10,
            );
            vstd::arithmetic::div_mod::lemma_mod_division_less_than_divisor(
                rem as int * 10,
                den as int,
            );
        }
        let wide = rem as u128 * 10;
        let d = (wide / den as u128) as u64;
        let r2 = (wide % den as u128) as u64;
        match frac_digits_exec(r2, den, fuel - 1) {
            Some(tail) => {
                let mut out: Vec<char> = Vec::new();
                out.push((48 + d as u8) as char);
                let ghost first = out@;
                let mut tail = tail;
                let ghost tailview = tail@;
                out.append(&mut tail);
                proof {
                    assert(out@ =~= seq![
                        crate::text::digit_char(((rem as nat * 10) / den as nat) as nat),
                    ] + tailview);
                }
                Some(out)
            },
            None => None,
        }
    }
}

/// Renders a fraction as characters.
pub(crate) fn float_to_chars(r: &Rational) -> (out: Vec<char>)
    requires
        r.wf(),
    ensures
        out@ == spec_float_str(*r),
{
    let neg = r.num < 0;
    let m: u64 = if r.num < 0 {
        (-(r.num as i128)) as u64
    } else {
        r.num as u64
    };
    let den: u64 = r.den as u64;
    let q = m / den;
    let rem = m % den;
    let mut out: Vec<char> = Vec::new();
    if neg {
        out.push('-');
    }
    match frac_digits_exec(rem, den, 130) {
        Some(frac) => {
            let mut digits = digits_u128(q as u128);
            out.append(&mut digits);
            if frac.len() > 0 {
                out.push('.');
                let mut frac = frac;
                out.append(&mut frac);
            }
            proof {
                assert(out@ =~= spec_float_str(*r));
            }
            out
        },
        None => {
            let mut digits = digits_u128(m as u128);
            out.append(&mut digits);
            out.push('/');
            let mut dden = digits_u128(den as u128);
            out.append(&mut dden);
            proof {
                assert(out@ =~= spec_float_str(*r));
            }
            out
        },
    }
}

/// The value under a name in a hash, front entry first; an unknown-method
/// error when the name is absent.
pub open spec fn hash_lookup(
    entries: Seq<(Seq<char>, SpecValue)>,
    name: Seq<char>,
) -> Result<SpecValue, SpecError>
    decreases entries.len(),
{
    if entries.len() == 0 {
        Err(SpecError::UnknownMethod(name))
    } else if entries[0].0 == name {
        Ok(entries[0].1)
    } else {
        hash_lookup(entries.drop_first(), name)
    }
}

/// The model of a call result.
pub open spec fn view_call_result(r: Result<Value, Error>) -> Result<SpecValue, SpecError> {
    match r {
        Ok(v) => Ok(view_value(v)),
        Err(e) => Err(crate::language::error::view_error(e)),
    }
}

/// What calling a named method on a value returns: the closed dispatch
/// table of the language. Every method takes no arguments; a known name
/// with arguments is an argument error, an unknown name an unknown-method
/// error.
pub open spec fn spec_call(
    v: SpecValue,
    name: Seq<char>,
    args: Seq<SpecValue>,
) -> Result<SpecValue, SpecError> {
    match v {
        SpecValue::Str(text) => if name == "upcase"@ {
            if args.len() == 0 {
                Ok(SpecValue::Str(upper_seq(text)))
            } else {
                Err(SpecError::ArgumentError(name))
            }
        } else if name == "downcase"@ {
            if args.len() == 0 {
                Ok(SpecValue::Str(lower_seq(text)))
            } else {
                Err(SpecError::ArgumentError(name))
            }
        } else if name == "trim"@ {
            if args.len() == 0 {
                Ok(SpecValue::Str(spec_trim(text)))
            } else {
                Err(SpecError::ArgumentError(name))
            }
        } else if name == "to_string"@ {
            if args.len() == 0 {
                Ok(SpecValue::Str(text))
            } else {
                Err(SpecError::ArgumentError(name))
            }
        } else {
            Err(SpecError::UnknownMethod(name))
        },
        SpecValue::Integer(n) => if name == "to_string"@ {
            if args.len() == 0 {
                Ok(SpecValue::Str(spec_int_str(n)))
            } else {
                Err(SpecError::ArgumentError(name))
            }
        } else {
            Err(SpecError::UnknownMethod(name))
        },
        SpecValue::Float(r) => if name == "to_string"@ {
            if args.len() == 0 {
                Ok(SpecValue::Str(spec_float_str(r)))
            } else {
                Err(SpecError::ArgumentError(name))
            }
        } else {
            Err(SpecError::UnknownMethod(name))
        },
        SpecValue::Boolean(b) => if name == "to_string"@ {
            if args.len() == 0 {
                Ok(SpecValue::Str(if b {
                    "true"@
                } else {
                    "false"@
                }))
            } else {
                Err(SpecError::ArgumentError(name))
            }
        } else {
            Err(SpecError::UnknownMethod(name))
        },
        SpecValue::List(items) => if all_digits(name) {
            if args.len() > 0 {
                Err(SpecError::ArgumentError(name))
            } else if digits_value(name) < items.len() {
                Ok(items[digits_value(name)])
            } else {
                Err(SpecError::ArgumentError(name))
            }
        } else {
            Err(SpecError::UnknownMethod(name))
        },
        SpecValue::Hash(entries) => if args.len() > 0 {
            Err(SpecError::ArgumentError(name))
        } else {
            hash_lookup(entries, name)
        },
        SpecValue::Null => Err(SpecError::UnknownMethod(name)),
    }
}

impl Value {
    /// Calls the named method on this value with the given arguments,
    /// following the language's closed dispatch table exactly.
    pub fn call(&self, name: &String, args: &Vec<Value>) -> (r: Result<Value, Error>)
        requires
            wf_value(*self),
        ensures
            view_call_result(r) == spec_call(self.deep_view(), name@, view_values(args@)),
            r is Ok ==> wf_value(r->Ok_0),
    {
        proof {
            lemma_view_values(args@);
        }
        match self {
            Value::String(text) => {
                if str_eq(name.as_str(), "upcase") {
                    if args.len() == 0 {
                        Ok(Value::String(upcase_str(text)))
                    } else {
                        Err(Error::ArgumentError(name.clone()))
                    }
                } else if str_eq(name.as_str(), "downcase") {
                    if args.len() == 0 {
                        Ok(Value::String(downcase_str(text)))
                    } else {
                        Err(Error::ArgumentError(name.clone()))
                    }
                } else if str_eq(name.as_str(), "trim") {
                    if args.len() == 0 {
                        Ok(Value::String(trim_str(text)))
                    } else {
                        Err(Error::ArgumentError(name.clone()))
                    }
                } else if str_eq(name.as_str(), "to_string") {
                    if args.len() == 0 {
                        Ok(Value::String(text.clone()))
                    } else {
                        Err(Error::ArgumentError(name.clone()))
                    }
                } else {
                    Err(Error::UnknownMethod(name.clone()))
                }
            },
            Value::Integer(n) => {
                if str_eq(name.as_str(), "to_string") {
                    if args.len() == 0 {
                        let chars = int_to_chars(*n);
                        Ok(Value::String(chars_to_string(&chars)))
                    } else {
                        Err(Error::ArgumentError(name.clone()))
                    }
                } else {
                    Err(Error::UnknownMethod(name.clone()))
                }
            },
            Value::Float(fr) => {
                if str_eq(name.as_str(), "to_string") {
                    if args.len() == 0 {
                        let chars = float_to_chars(fr);
                        Ok(Value::String(chars_to_string(&chars)))
                    } else {
                        Err(Error::ArgumentError(name.clone()))
                    }
                } else {
                    Err(Error::UnknownMethod(name.clone()))
                }
            },
            Value::Boolean(b) => {
                if str_eq(name.as_str(), "to_string") {
                    if args.len() == 0 {
                        if *b {
                            Ok(Value::String(String::from_str("true")))
                        } else {
                            Ok(Value::String(String::from_str("false")))
                        }
                    } else {
                        Err(Error::ArgumentError(name.clone()))
                    }
                } else {
                    Err(Error::UnknownMethod(name.clone()))
                }
            },
            Value::List(items) => {
                let chars = str_chars(name.as_str());
                match parse_index(&chars) {
                    ParsedIndex::NotNumber => Err(Error::UnknownMethod(name.clone())),
                    ParsedIndex::TooLarge => {
                        let len = items.len();
                        proof {
                            lemma_view_values(items@);
                        }
                        Err(Error::ArgumentError(name.clone()))
                    },
                    ParsedIndex::Index(idx) => {
                        if args.len() > 0 {
                            Err(Error::ArgumentError(name.clone()))
                        } else {
                            let len = items.len();
                            proof {
                                lemma_view_values(items@);
                            }
                            if idx < len as u64 {
                                Ok(clone_value(&items[idx as usize]))
                            } else {
                                Err(Error::ArgumentError(name.clone()))
                            }
                        }
                    },
                }
            },
            Value::Hash(entries) => {
                if args.len() > 0 {
                    Err(Error::ArgumentError(name.clone()))
                } else {
                    proof {
                        lemma_view_entries(entries@);
                        assert(view_entries(entries@).skip(0) =~= view_entries(entries@));
                    }
                    let mut i: usize = 0;
                    while i < entries.len()
                        invariant
                            *self == Value::Hash(*entries),
                            view_values(args@).len() == 0,
                            i <= entries@.len(),
                            view_entries(entries@).len() == entries@.len(),
                            forall|j: int|
                                0 <= j < entries@.len() ==> #[trigger] view_entries(entries@)[j]
                                    == (entries@[j].0@, view_value(entries@[j].1)),
                            forall|j: int|
                                0 <= j < entries@.len() ==> wf_value(#[trigger] entries@[j].1),
                            hash_lookup(view_entries(entries@), name@) == hash_lookup(
                                view_entries(entries@).skip(i as int),
                                name@,
                            ),
                        decreases entries@.len() - i,
                    {
                        let ghost rest = view_entries(entries@).skip(i as int);
                        proof {
                            assert(rest[0] == view_entries(entries@)[i as int]);
                        }
                        let entry = &entries[i];
                        if str_eq(entry.0.as_str(), name.as_str()) {
                            proof {
                                assert(hash_lookup(rest, name@) == Ok::<SpecValue, SpecError>(
                                    rest[0].1,
                                ));
                            }
                            return Ok(clone_value(&entry.1));
                        }
                        proof {
                            assert(rest.drop_first() =~= view_entries(entries@).skip(
                                i as int + 1,
                            ));
                        }
                        i = i + 1;
                    }
                    proof {
                        assert(view_entries(entries@).skip(i as int) =~= Seq::empty());
                    }
                    Err(Error::UnknownMethod(name.clone()))
                }
            },
            Value::Null => Err(Error::UnknownMethod(name.clone())),
        }
    }
}

} // verus!
