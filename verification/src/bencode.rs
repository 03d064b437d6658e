//! Bencode values: the four types of the format (integer, byte string, list,
//! dictionary), with an exact mathematical encoding function.
//!
//! Dictionaries keep their entries in the order they were built or parsed, so
//! that re-serialising a value reproduces the bytes it came from.

use vstd::prelude::*;
use crate::error::TorrentError;

verus! {

/// One dictionary entry: a raw-byte key and its value.
#[derive(Debug)]
pub struct DictEntry {
    pub key: Vec<u8>,
    pub value: BencodeValue,
}

/// A bencode value. Dictionary entries are kept as an ordered list of
/// key/value pairs; keys are raw bytes.
#[derive(Debug)]
pub enum BencodeValue {
    Int(i64),
    Bytes(Vec<u8>),
    List(Vec<BencodeValue>),
    Dict(Vec<DictEntry>),
}

/// The mathematical counterpart of a dictionary entry.
pub struct BencodeSpecEntry {
    pub key: Seq<u8>,
    pub value: BencodeSpecValue,
}

/// The mathematical counterpart of `BencodeValue`, used in contracts.
pub enum BencodeSpecValue {
    Int(int),
    Bytes(Seq<u8>),
    List(Seq<BencodeSpecValue>),
    Dict(Seq<BencodeSpecEntry>),
}

/// The mathematical value that a `BencodeValue` stands for.
pub open spec fn bval_view(v: BencodeValue) -> BencodeSpecValue
    decreases v,
{
    match v {
        BencodeValue::Int(i) => BencodeSpecValue::Int(i as int),
        BencodeValue::Bytes(b) => BencodeSpecValue::Bytes(b@),
        BencodeValue::List(l) => BencodeSpecValue::List(view_elems(l@)),
        BencodeValue::Dict(d) => BencodeSpecValue::Dict(view_entries(d@)),
    }
}

/// The views of the elements of a list, in order.
pub open spec fn view_elems(s: Seq<BencodeValue>) -> Seq<BencodeSpecValue>
    decreases s,
{
    if s.len() == 0 {
        Seq::empty()
    } else {
        seq![bval_view(s[0])] + view_elems(s.drop_first())
    }
}

/// The views of the entries of a dictionary, in order.
pub open spec fn view_entries(s: Seq<DictEntry>) -> Seq<BencodeSpecEntry>
    decreases s,
{
    if s.len() == 0 {
        Seq::empty()
    } else {
        seq![BencodeSpecEntry { key: s[0].key@, value: bval_view(s[0].value) }] + view_entries(
            s.drop_first(),
        )
    }
}

impl View for BencodeValue {
    type V = BencodeSpecValue;

    open spec fn view(&self) -> BencodeSpecValue {
        bval_view(*self)
    }
}

impl View for DictEntry {
    type V = BencodeSpecEntry;

    open spec fn view(&self) -> BencodeSpecEntry {
        BencodeSpecEntry { key: self.key@, value: bval_view(self.value) }
    }
}

/// Element `i` of the view of a list is the view of element `i`.
pub proof fn lemma_view_elems(s: Seq<BencodeValue>)
    ensures
        view_elems(s).len() == s.len(),
        forall|i: int| 0 <= i < s.len() ==> view_elems(s)[i] == #[trigger] s[i]@,
    decreases s.len(),
{
    if s.len() > 0 {
        lemma_view_elems(s.drop_first());
        assert forall|i: int| 0 <= i < s.len() implies view_elems(s)[i] == #[trigger] s[i]@ by {
            if i > 0 {
                assert(view_elems(s)[i] == view_elems(s.drop_first())[i - 1]);
                assert(s.drop_first()[i - 1] == s[i]);
            }
        }
    }
}

/// Entry `i` of the view of a dictionary is the view of entry `i`.
pub proof fn lemma_view_entries(s: Seq<DictEntry>)
    ensures
        view_entries(s).len() == s.len(),
        forall|i: int| 0 <= i < s.len() ==> view_entries(s)[i] == #[trigger] s[i]@,
    decreases s.len(),
{
    if s.len() > 0 {
        lemma_view_entries(s.drop_first());
        assert forall|i: int| 0 <= i < s.len() implies view_entries(s)[i] == #[trigger] s[i]@ by {
            if i > 0 {
                assert(view_entries(s)[i] == view_entries(s.drop_first())[i - 1]);
                assert(s.drop_first()[i - 1] == s[i]);
            }
        }
    }
}

impl BencodeValue {
    /// The integer held, if this is an integer.
    pub fn as_int(&self) -> (r: Option<i64>)
        ensures
            match r {
                Some(i) => self@ == BencodeSpecValue::Int(i as int),
                None => !(self@ is Int),
            },
    {
        match self {
            BencodeValue::Int(i) => Some(*i),
            _ => None,
        }
    }

    /// The byte string held, if this is a byte string.
    pub fn as_bytes(&self) -> (r: Option<&Vec<u8>>)
        ensures
            match r {
                Some(b) => self@ == BencodeSpecValue::Bytes(b@),
                None => !(self@ is Bytes),
            },
    {
        match self {
            BencodeValue::Bytes(b) => Some(b),
            _ => None,
        }
    }

    /// The element list held, if this is a list.
    pub fn as_list(&self) -> (r: Option<&Vec<BencodeValue>>)
        ensures
            match r {
                Some(l) => self@ == BencodeSpecValue::List(view_elems(l@)),
                None => !(self@ is List),
            },
    {
        match self {
            BencodeValue::List(l) => Some(l),
            _ => None,
        }
    }

    /// The key/value pairs held, if this is a dictionary.
    pub fn as_dict(&self) -> (r: Option<&Vec<DictEntry>>)
        ensures
            match r {
                Some(d) => self@ == BencodeSpecValue::Dict(view_entries(d@)),
                None => !(self@ is Dict),
            },
    {
        match self {
            BencodeValue::Dict(d) => Some(d),
            _ => None,
        }
    }
}

/// Decimal digits of `n`, most significant first, as ASCII bytes.
pub open spec fn spec_digits(n: nat) -> Seq<u8>
    decreases n,
{
    if n < 10 {
        seq![(48 + n) as u8]
    } else {
        spec_digits(n / 10) + seq![(48 + n % 10) as u8]
    }
}

/// The ASCII rendering of a (possibly negative) integer.
pub open spec fn spec_int_literal(i: int) -> Seq<u8> {
    if i < 0 {
        seq![45u8] + spec_digits((-i) as nat)
    } else {
        spec_digits(i as nat)
    }
}

/// The bencode encoding of a value.
pub open spec fn spec_encode(v: BencodeSpecValue) -> Seq<u8>
    decreases v,
{
    match v {
        BencodeSpecValue::Int(i) => seq![105u8] + spec_int_literal(i) + seq![101u8],
        BencodeSpecValue::Bytes(b) => spec_digits(b.len()) + seq![58u8] + b,
        BencodeSpecValue::List(l) => seq![108u8] + spec_encode_elems(l) + seq![101u8],
        BencodeSpecValue::Dict(d) => seq![100u8] + spec_encode_entries(d) + seq![101u8],
    }
}

/// The concatenated encodings of the elements of a list.
pub open spec fn spec_encode_elems(l: Seq<BencodeSpecValue>) -> Seq<u8>
    decreases l,
{
    if l.len() == 0 {
        Seq::empty()
    } else {
        spec_encode(l[0]) + spec_encode_elems(l.drop_first())
    }
}

/// The concatenated encodings of the entries of a dictionary: each key as a
/// byte string, followed by its value.
pub open spec fn spec_encode_entries(d: Seq<BencodeSpecEntry>) -> Seq<u8>
    decreases d,
{
    if d.len() == 0 {
        Seq::empty()
    } else {
        spec_digits(d[0].key.len()) + seq![58u8] + d[0].key + spec_encode(d[0].value)
            + spec_encode_entries(d.drop_first())
    }
}

/// The encoding of a one-element list is the encoding of the element.
pub proof fn lemma_encode_elems_singleton(x: BencodeSpecValue)
    ensures
        spec_encode_elems(seq![x]) == spec_encode(x),
{
    let s = seq![x];
    assert(s[0] == x);
    assert(s.drop_first() =~= Seq::<BencodeSpecValue>::empty());
    assert(spec_encode_elems(s.drop_first()) == Seq::<u8>::empty());
    assert(spec_encode_elems(s) == spec_encode(x) + spec_encode_elems(s.drop_first()));
    assert(spec_encode(x) + Seq::<u8>::empty() =~= spec_encode(x));
}

/// The encoding of a one-entry dictionary body is the key as a byte string
/// followed by the value.
pub proof fn lemma_encode_entries_singleton(x: BencodeSpecEntry)
    ensures
        spec_encode_entries(seq![x]) == spec_encode(BencodeSpecValue::Bytes(x.key))
            + spec_encode(x.value),
{
    let s = seq![x];
    assert(s[0] == x);
    assert(s.drop_first() =~= Seq::<BencodeSpecEntry>::empty());
    assert(spec_encode_entries(s.drop_first()) == Seq::<u8>::empty());
    assert(spec_encode_entries(s) == spec_digits(x.key.len()) + seq![58u8] + x.key + spec_encode(
        x.value,
    ) + spec_encode_entries(s.drop_first()));
    assert(spec_digits(x.key.len()) + seq![58u8] + x.key + spec_encode(x.value)
        + Seq::<u8>::empty() =~= spec_encode(BencodeSpecValue::Bytes(x.key)) + spec_encode(
        x.value,
    ));
}

/// Splitting a list splits its encoding.
pub proof fn lemma_encode_elems_concat(a: Seq<BencodeSpecValue>, b: Seq<BencodeSpecValue>)
    ensures
        spec_encode_elems(a + b) == spec_encode_elems(a) + spec_encode_elems(b),
    decreases a.len(),
{
    if a.len() == 0 {
        assert(a + b == b);
        assert(spec_encode_elems(a) == Seq::<u8>::empty());
        assert(spec_encode_elems(a) + spec_encode_elems(b) == spec_encode_elems(b));
    } else {
        lemma_encode_elems_concat(a.drop_first(), b);
        assert((a + b).drop_first() == a.drop_first() + b);
        assert((a + b)[0] == a[0]);
    }
}

/// Splitting a dictionary splits its encoding.
pub proof fn lemma_encode_entries_concat(a: Seq<BencodeSpecEntry>, b: Seq<BencodeSpecEntry>)
    ensures
        spec_encode_entries(a + b) == spec_encode_entries(a) + spec_encode_entries(b),
    decreases a.len(),
{
    if a.len() == 0 {
        assert(a + b == b);
        assert(spec_encode_entries(a) == Seq::<u8>::empty());
        assert(spec_encode_entries(a) + spec_encode_entries(b) == spec_encode_entries(b));
    } else {
        lemma_encode_entries_concat(a.drop_first(), b);
        assert((a + b).drop_first() == a.drop_first() + b);
        assert((a + b)[0] == a[0]);
    }
}

/// Appends the decimal digits of `n` to `out`.
fn push_digits(out: &mut Vec<u8>, n: u64)
    ensures
        final(out)@ == old(out)@ + spec_digits(n as nat),
    decreases n,
{
    if n < 10 {
        out.push((48 + n) as u8);
    } else {
        push_digits(out, n / 10);
        out.push((48 + (n % 10)) as u8);
    }
}

/// Appends the ASCII rendering of `i` to `out`.
fn push_int_literal(out: &mut Vec<u8>, i: i64)
    ensures
        final(out)@ == old(out)@ + spec_int_literal(i as int),
{
    if i < 0 {
        out.push(45);
        let magnitude: u64 = (-(i as i128)) as u64;
        push_digits(out, magnitude);
        assert(out@ == old(out)@ + spec_int_literal(i as int));
    } else {
        push_digits(out, i as u64);
    }
}

/// Appends all bytes of `b` to `out`.
fn push_bytes(out: &mut Vec<u8>, b: &Vec<u8>)
    ensures
        final(out)@ == old(out)@ + b@,
{
    let mut k: usize = 0;
    while k < b.len()
        invariant
            k <= b.len(),
            out@ == old(out)@ + b@.subrange(0, k as int),
        decreases b.len() - k,
    {
        out.push(b[k]);
        k = k + 1;
        assert(b@.subrange(0, k as int) == b@.subrange(0, k - 1 as int) + seq![b@[k - 1]]);
    }
    assert(b@.subrange(0, b@.len() as int) == b@);
}

/// Appends the encoding of a byte string (`<len>:<bytes>`) to `out`.
fn push_byte_string(out: &mut Vec<u8>, b: &Vec<u8>)
    ensures
        final(out)@ == old(out)@ + spec_encode(BencodeSpecValue::Bytes(b@)),
{
    push_digits(out, b.len() as u64);
    out.push(58);
    push_bytes(out, b);
}

impl BencodeValue {
    /// Encodes this value as bencode bytes.
    pub fn encode(&self) -> (r: Vec<u8>)
        ensures
            r@ == spec_encode(self@),
    {
        let mut out: Vec<u8> = Vec::new();
        self.encode_into(&mut out);
        out
    }

    /// Appends the bencode encoding of this value to `out`.
    pub fn encode_into(&self, out: &mut Vec<u8>)
        ensures
            final(out)@ == old(out)@ + spec_encode(self@),
        decreases self,
    {
        match self {
            BencodeValue::Int(i) => {
                out.push(105);
                push_int_literal(out, *i);
                out.push(101);
                assert(out@ == old(out)@ + spec_encode(self@));
            },
            BencodeValue::Bytes(b) => {
                push_byte_string(out, b);
            },
            BencodeValue::List(l) => {
                out.push(108);
                let ghost elems = view_elems(l@);
                proof {
                    lemma_view_elems(l@);
                }
                let mut k: usize = 0;
                while k < l.len()
                    invariant
                        k <= l.len(),
                        elems == view_elems(l@),
                        elems.len() == l@.len(),
                        forall|j: int| 0 <= j < l@.len() ==> elems[j] == #[trigger] l@[j]@,
                        out@ == old(out)@ + seq![108u8] + spec_encode_elems(
                            elems.subrange(0, k as int),
                        ),
                        decreases_to!(*self => l@),
                    decreases l.len() - k,
                {
                    proof {
                        assert(decreases_to!(l@ => l@[k as int]));
                    }
                    l[k].encode_into(out);
                    k = k + 1;
                    proof {
                        let pre = elems.subrange(0, k - 1 as int);
                        lemma_encode_elems_concat(pre, seq![elems[k - 1 as int]]);
                        lemma_encode_elems_singleton(elems[k - 1 as int]);
                        assert(elems.subrange(0, k as int) == pre + seq![elems[k - 1 as int]]);
                    }
                }
                out.push(101);
                assert(elems.subrange(0, elems.len() as int) == elems);
                assert(out@ == old(out)@ + spec_encode(self@));
            },
            BencodeValue::Dict(d) => {
                out.push(100);
                let ghost entries = view_entries(d@);
                proof {
                    lemma_view_entries(d@);
                }
                let mut k: usize = 0;
                while k < d.len()
                    invariant
                        k <= d.len(),
                        entries == view_entries(d@),
                        entries.len() == d@.len(),
                        forall|j: int| 0 <= j < d@.len() ==> entries[j] == #[trigger] d@[j]@,
                        out@ == old(out)@ + seq![100u8] + spec_encode_entries(
                            entries.subrange(0, k as int),
                        ),
                        decreases_to!(*self => d@),
                    decreases d.len() - k,
                {
                    let entry = &d[k];
                    push_byte_string(out, &entry.key);
                    proof {
                        assert(decreases_to!(d@ => d@[k as int]));
                        assert(decreases_to!(d@[k as int] => d@[k as int].value));
                    }
                    entry.value.encode_into(out);
                    k = k + 1;
                    proof {
                        let pre = entries.subrange(0, k - 1 as int);
                        assert(entries[k - 1 as int] == d@[k - 1 as int]@);
                        assert(entries[k - 1 as int].key == entry.key@);
                        assert(entries[k - 1 as int].value == entry.value@);
                        lemma_encode_entries_concat(pre, seq![entries[k - 1 as int]]);
                        lemma_encode_entries_singleton(entries[k - 1 as int]);
                        assert(entries.subrange(0, k as int) == pre + seq![entries[k - 1 as int]]);
                        assert(out@ =~= old(out)@ + seq![100u8] + spec_encode_entries(
                            entries.subrange(0, k as int),
                        ));
                    }
                }
                out.push(101);
                assert(entries.subrange(0, entries.len() as int) == entries);
                assert(out@ == old(out)@ + spec_encode(self@));
            },
        }
    }
}

/// Whether `b` is an ASCII decimal digit.
pub open spec fn spec_is_digit(b: u8) -> bool {
    48 <= b && b <= 57
}

/// The first position at or after `i` that does not hold a digit.
pub open spec fn spec_digits_end(data: Seq<u8>, i: nat) -> nat
    decreases data.len() - i,
{
    if i < data.len() && spec_is_digit(data[i as int]) {
        spec_digits_end(data, i + 1)
    } else {
        i
    }
}

/// The value of the digit run `data[i..j)`.
pub open spec fn spec_digits_val(data: Seq<u8>, i: nat, j: nat) -> nat
    decreases j - i,
{
    if j <= i {
        0
    } else {
        spec_digits_val(data, i, (j - 1) as nat) * 10 + (if spec_is_digit(data[j - 1 as int]) {
            (data[j - 1 as int] - 48) as nat
        } else {
            0nat
        })
    }
}

/// The value parsed at position `i` of `data`, with the position after it.
///
/// `fuel` bounds the nesting depth: every step into a list or dictionary
/// spends one unit, so any fuel beyond the nesting depth of the input gives
/// the same answer. `None` stands for a parse error (or exhausted fuel).
pub open spec fn spec_parse_value(data: Seq<u8>, i: nat, fuel: nat) -> Option<
    (BencodeSpecValue, nat),
>
    decreases fuel, data.len() - i, 0nat,
{
    if fuel == 0 || i >= data.len() {
        None
    } else if data[i as int] == 105 {
        let neg = i + 1 < data.len() && data[i + 1 as int] == 45;
        let start: nat = if neg {
            i + 2
        } else {
            i + 1
        };
        let j = spec_digits_end(data, start);
        if j == start || j >= data.len() || data[j as int] != 101 {
            None
        } else {
            let m = spec_digits_val(data, start, j);
            let v: int = if neg {
                -(m as int)
            } else {
                m as int
            };
            if i64::MIN <= v <= i64::MAX {
                Some((BencodeSpecValue::Int(v), j + 1))
            } else {
                None
            }
        }
    } else if spec_is_digit(data[i as int]) {
        let j = spec_digits_end(data, i);
        if j >= data.len() || data[j as int] != 58 {
            None
        } else {
            let n = spec_digits_val(data, i, j);
            if j + 1 + n <= data.len() {
                Some(
                    (
                        BencodeSpecValue::Bytes(data.subrange(j + 1 as int, (j + 1 + n) as int)),
                        j + 1 + n,
                    ),
                )
            } else {
                None
            }
        }
    } else if data[i as int] == 108 {
        match spec_parse_elems(data, i + 1, (fuel - 1) as nat) {
            Some((l, j)) => Some((BencodeSpecValue::List(l), j)),
            None => None,
        }
    } else if data[i as int] == 100 {
        match spec_parse_entries(data, i + 1, (fuel - 1) as nat) {
            Some((d, j)) => Some((BencodeSpecValue::Dict(d), j)),
            None => None,
        }
    } else {
        None
    }
}

/// The list elements parsed from position `i` up to a closing `e`.
pub open spec fn spec_parse_elems(data: Seq<u8>, i: nat, fuel: nat) -> Option<
    (Seq<BencodeSpecValue>, nat),
>
    decreases fuel, data.len() - i, 1nat,
{
    if fuel == 0 || i >= data.len() {
        None
    } else if data[i as int] == 101 {
        Some((Seq::empty(), i + 1))
    } else {
        match spec_parse_value(data, i, fuel) {
            Some((v, j)) => if i < j && j <= data.len() {
                match spec_parse_elems(data, j, fuel) {
                    Some((l, e)) => Some((seq![v] + l, e)),
                    None => None,
                }
            } else {
                None
            },
            None => None,
        }
    }
}

/// The dictionary entries parsed from position `i` up to a closing `e`;
/// every key must be a byte string.
pub open spec fn spec_parse_entries(data: Seq<u8>, i: nat, fuel: nat) -> Option<
    (Seq<BencodeSpecEntry>, nat),
>
    decreases fuel, data.len() - i, 1nat,
{
    if fuel == 0 || i >= data.len() {
        None
    } else if data[i as int] == 101 {
        Some((Seq::empty(), i + 1))
    } else {
        match spec_parse_value(data, i, fuel) {
            Some((k, j)) => if i < j && j <= data.len() && k is Bytes {
                match spec_parse_value(data, j, fuel) {
                    Some((v, j2)) => if j < j2 && j2 <= data.len() {
                        match spec_parse_entries(data, j2, fuel) {
                            Some((es, e)) => Some(
                                (seq![BencodeSpecEntry { key: k->Bytes_0, value: v }] + es, e),
                            ),
                            None => None,
                        }
                    } else {
                        None
                    },
                    None => None,
                }
            } else {
                None
            },
            None => None,
        }
    }
}

/// The digit run never ends before `i` nor after the end of `data`.
pub proof fn lemma_digits_end_bounds(data: Seq<u8>, i: nat)
    requires
        i <= data.len(),
    ensures
        i <= spec_digits_end(data, i) <= data.len(),
    decreases data.len() - i,
{
    if i < data.len() && spec_is_digit(data[i as int]) {
        lemma_digits_end_bounds(data, i + 1);
    }
}

/// A successful parse moves forward and stays inside the data.
pub proof fn lemma_parse_value_bounds(data: Seq<u8>, i: nat, fuel: nat)
    ensures
        spec_parse_value(data, i, fuel) matches Some((v, j)) ==> i < j <= data.len(),
    decreases fuel, data.len() - i, 0nat,
{
    if fuel == 0 || i >= data.len() {
    } else if data[i as int] == 105 {
        let neg = i + 1 < data.len() && data[i + 1 as int] == 45;
        let start: nat = if neg {
            i + 2
        } else {
            i + 1
        };
        if start <= data.len() {
            lemma_digits_end_bounds(data, start);
        }
    } else if spec_is_digit(data[i as int]) {
        lemma_digits_end_bounds(data, i);
    } else if data[i as int] == 108 {
        lemma_parse_elems_bounds(data, i + 1, (fuel - 1) as nat);
    } else if data[i as int] == 100 {
        lemma_parse_entries_bounds(data, i + 1, (fuel - 1) as nat);
    }
}

/// A successful list parse moves forward and stays inside the data.
pub proof fn lemma_parse_elems_bounds(data: Seq<u8>, i: nat, fuel: nat)
    ensures
        spec_parse_elems(data, i, fuel) matches Some((l, j)) ==> i < j <= data.len(),
    decreases fuel, data.len() - i, 1nat,
{
    if fuel == 0 || i >= data.len() {
    } else if data[i as int] == 101 {
    } else {
        lemma_parse_value_bounds(data, i, fuel);
        match spec_parse_value(data, i, fuel) {
            Some((v, j)) => {
                if i < j && j <= data.len() {
                    lemma_parse_elems_bounds(data, j, fuel);
                }
            },
            None => {},
        }
    }
}

/// A successful dictionary parse moves forward and stays inside the data.
pub proof fn lemma_parse_entries_bounds(data: Seq<u8>, i: nat, fuel: nat)
    ensures
        spec_parse_entries(data, i, fuel) matches Some((d, j)) ==> i < j <= data.len(),
    decreases fuel, data.len() - i, 1nat,
{
    if fuel == 0 || i >= data.len() {
    } else if data[i as int] == 101 {
    } else {
        lemma_parse_value_bounds(data, i, fuel);
        match spec_parse_value(data, i, fuel) {
            Some((k, j)) => {
                if i < j && j <= data.len() && k is Bytes {
                    lemma_parse_value_bounds(data, j, fuel);
                    match spec_parse_value(data, j, fuel) {
                        Some((v, j2)) => {
                            if j < j2 && j2 <= data.len() {
                                lemma_parse_entries_bounds(data, j2, fuel);
                            }
                        },
                        None => {},
                    }
                }
            },
            None => {},
        }
    }
}

/// More fuel never changes a successful parse, nor turns a parse error into
/// success once the fuel covers the nesting depth reached.
pub proof fn lemma_parse_value_mono(data: Seq<u8>, i: nat, f1: nat, f2: nat)
    requires
        f1 <= f2,
        spec_parse_value(data, i, f1) is Some,
    ensures
        spec_parse_value(data, i, f2) == spec_parse_value(data, i, f1),
    decreases f1, data.len() - i, 0nat,
{
    if f1 == 0 || i >= data.len() {
    } else if data[i as int] == 108 {
        lemma_parse_elems_mono(data, i + 1, (f1 - 1) as nat, (f2 - 1) as nat);
    } else if data[i as int] == 100 {
        lemma_parse_entries_mono(data, i + 1, (f1 - 1) as nat, (f2 - 1) as nat);
    }
}

/// More fuel never changes a successful list parse.
pub proof fn lemma_parse_elems_mono(data: Seq<u8>, i: nat, f1: nat, f2: nat)
    requires
        f1 <= f2,
        spec_parse_elems(data, i, f1) is Some,
    ensures
        spec_parse_elems(data, i, f2) == spec_parse_elems(data, i, f1),
    decreases f1, data.len() - i, 1nat,
{
    if f1 == 0 || i >= data.len() {
    } else if data[i as int] == 101 {
    } else {
        lemma_parse_value_mono(data, i, f1, f2);
        match spec_parse_value(data, i, f1) {
            Some((v, j)) => {
                if i < j && j <= data.len() {
                    lemma_parse_elems_mono(data, j, f1, f2);
                }
            },
            None => {},
        }
    }
}

/// More fuel never changes a successful dictionary parse.
pub proof fn lemma_parse_entries_mono(data: Seq<u8>, i: nat, f1: nat, f2: nat)
    requires
        f1 <= f2,
        spec_parse_entries(data, i, f1) is Some,
    ensures
        spec_parse_entries(data, i, f2) == spec_parse_entries(data, i, f1),
    decreases f1, data.len() - i, 1nat,
{
    if f1 == 0 || i >= data.len() {
    } else if data[i as int] == 101 {
    } else {
        lemma_parse_value_mono(data, i, f1, f2);
        match spec_parse_value(data, i, f1) {
            Some((k, j)) => {
                if i < j && j <= data.len() && k is Bytes {
                    lemma_parse_value_mono(data, j, f1, f2);
                    match spec_parse_value(data, j, f1) {
                        Some((v, j2)) => {
                            if j < j2 && j2 <= data.len() {
                                lemma_parse_entries_mono(data, j2, f1, f2);
                            }
                        },
                        None => {},
                    }
                }
            },
            None => {},
        }
    }
}

/// Appending an element appends its view.
pub proof fn lemma_view_elems_push(s: Seq<BencodeValue>, x: BencodeValue)
    ensures
        view_elems(s.push(x)) == view_elems(s) + seq![bval_view(x)],
{
    lemma_view_elems(s.push(x));
    lemma_view_elems(s);
    assert forall|i: int| 0 <= i < s.len() + 1 implies view_elems(s.push(x))[i] == (view_elems(s)
        + seq![bval_view(x)])[i] by {
        if i < s.len() {
            assert(s.push(x)[i] == s[i]);
            assert(view_elems(s.push(x))[i] == s.push(x)[i]@);
            assert(view_elems(s)[i] == s[i]@);
        } else {
            assert(s.push(x)[i] == x);
            assert(view_elems(s.push(x))[i] == s.push(x)[i]@);
        }
    }
    assert(view_elems(s.push(x)) =~= view_elems(s) + seq![bval_view(x)]);
}

/// Appending an entry appends its view.
pub proof fn lemma_view_entries_push(s: Seq<DictEntry>, x: DictEntry)
    ensures
        view_entries(s.push(x)) == view_entries(s) + seq![x@],
{
    lemma_view_entries(s.push(x));
    lemma_view_entries(s);
    assert forall|i: int| 0 <= i < s.len() + 1 implies view_entries(s.push(x))[i] == (view_entries(
        s,
    ) + seq![x@])[i] by {
        if i < s.len() {
            assert(s.push(x)[i] == s[i]);
            assert(view_entries(s.push(x))[i] == s.push(x)[i]@);
            assert(view_entries(s)[i] == s[i]@);
        } else {
            assert(s.push(x)[i] == x);
            assert(view_entries(s.push(x))[i] == s.push(x)[i]@);
        }
    }
    assert(view_entries(s.push(x)) =~= view_entries(s) + seq![x@]);
}

/// A longer digit run never has a smaller value.
pub proof fn lemma_digits_val_mono(data: Seq<u8>, i: nat, j1: nat, j2: nat)
    requires
        i <= j1 <= j2,
    ensures
        spec_digits_val(data, i, j2) >= spec_digits_val(data, i, j1),
    decreases j2 - j1,
{
    if j2 > j1 {
        lemma_digits_val_mono(data, i, j1, (j2 - 1) as nat);
    }
}

/// Parses the bencode value at `*idx` in `data`, leaving `*idx` just past
/// it. Truncated input, an unterminated run of digits or container, an
/// integer outside the 64-bit range, and an unknown leading byte are all
/// refused.
pub fn parse_value(data: &[u8], idx: &mut usize) -> (r: Result<BencodeValue, TorrentError>)
    ensures
        match r {
            Ok(v) => *old(idx) < *final(idx) <= data@.len() && forall|f: nat|
                f >= data@.len() - *old(idx) + 1 ==> spec_parse_value(data@, *old(idx) as nat, f)
                    == Some((v@, *final(idx) as nat)),
            Err(e) => e is ParseError && forall|f: nat|
                f >= data@.len() - *old(idx) + 1 ==> spec_parse_value(
                    data@,
                    *old(idx) as nat,
                    f,
                ) is None,
        },
    decreases data@.len() - *idx,
{
    let i0 = *idx;
    let len = data.len();
    if i0 >= len {
        return Err(TorrentError::parse_error("Unexpected end of data"));
    }
    let b = data[i0];
    if b == 105 {
        // Integer: optional minus sign, digits, then 'e'.
        let neg = i0 + 1 < len && data[i0 + 1] == 45;
        let start = if neg {
            i0 + 2
        } else {
            i0 + 1
        };
        let mut j = start;
        while j < len && 48 <= data[j] && data[j] <= 57
            invariant
                start <= j <= len,
                len == data@.len(),
                spec_digits_end(data@, start as nat) == spec_digits_end(data@, j as nat),
                forall|p: int| start <= p < j ==> spec_is_digit(data@[p]),
            decreases len - j,
        {
            j = j + 1;
        }
        proof {
            assert(spec_digits_end(data@, j as nat) == j);
        }
        if j == start {
            return Err(TorrentError::parse_error("Unterminated integer"));
        }
        if j >= len || data[j] != 101 {
            return Err(TorrentError::parse_error("Unterminated integer"));
        }
        // The digits' value, with an early out once it can no longer fit.
        let mut acc: u128 = 0;
        let mut over = false;
        let mut p = start;
        while p < j
            invariant
                start <= p <= j <= len,
                len == data@.len(),
                forall|q: int| start <= q < j ==> spec_is_digit(data@[q]),
                !over ==> acc == spec_digits_val(data@, start as nat, p as nat) && acc <= 0x8000000000000000u128,
                over ==> spec_digits_val(data@, start as nat, p as nat) > 0x8000000000000000,
            decreases j - p,
        {
            if !over {
                acc = acc * 10 + ((data[p] - 48) as u128);
                if acc > 0x8000000000000000u128 {
                    over = true;
                }
            } else {
                proof {
                    lemma_digits_val_mono(data@, start as nat, p as nat, (p + 1) as nat);
                }
            }
            p = p + 1;
        }
        if over {
            proof {
                assert(spec_digits_val(data@, start as nat, j as nat) > 0x8000000000000000);
            }
            return Err(TorrentError::parse_error("Integer out of range"));
        }
        if neg {
            let value: i64 = (-(acc as i128)) as i64;
            *idx = j + 1;
            return Ok(BencodeValue::Int(value));
        }
        if acc > 0x7FFFFFFFFFFFFFFFu128 {
            return Err(TorrentError::parse_error("Integer out of range"));
        }
        let value: i64 = acc as i64;
        *idx = j + 1;
        return Ok(BencodeValue::Int(value));
    }
    if 48 <= b && b <= 57 {
        // Byte string: decimal length, ':', then that many bytes.
        let mut j = i0;
        while j < len && 48 <= data[j] && data[j] <= 57
            invariant
                i0 <= j <= len,
                len == data@.len(),
                spec_digits_end(data@, i0 as nat) == spec_digits_end(data@, j as nat),
                forall|p: int| i0 <= p < j ==> spec_is_digit(data@[p]),
            decreases len - j,
        {
            j = j + 1;
        }
        proof {
            assert(spec_digits_end(data@, j as nat) == j);
        }
        if j >= len || data[j] != 58 {
            return Err(TorrentError::parse_error("Unterminated string length"));
        }
        let mut acc: u128 = 0;
        let mut over = false;
        let mut p = i0;
        while p < j
            invariant
                i0 <= p <= j <= len,
                len == data@.len(),
                forall|q: int| i0 <= q < j ==> spec_is_digit(data@[q]),
                !over ==> acc == spec_digits_val(data@, i0 as nat, p as nat) && acc <= len as u128,
                over ==> spec_digits_val(data@, i0 as nat, p as nat) > len,
            decreases j - p,
        {
            if !over {
                acc = acc * 10 + ((data[p] - 48) as u128);
                if acc > len as u128 {
                    over = true;
                }
            } else {
                proof {
                    lemma_digits_val_mono(data@, i0 as nat, p as nat, (p + 1) as nat);
                }
            }
            p = p + 1;
        }
        if over {
            proof {
                assert(spec_digits_val(data@, i0 as nat, j as nat) > len);
            }
            return Err(TorrentError::parse_error("String longer than its data"));
        }
        let n = acc as usize;
        if n > len - j - 1 {
            return Err(TorrentError::parse_error("String longer than its data"));
        }
        let bytes = crate::protocol::wire::copy_range(data, j + 1, j + 1 + n);
        *idx = j + 1 + n;
        return Ok(BencodeValue::Bytes(bytes));
    }
    if b == 108 {
        // List: values until 'e'.
        let start = i0 + 1;
        *idx = start;
        let mut elems: Vec<BencodeValue> = Vec::new();
        loop
            invariant
                i0 == *old(idx),
                start <= *idx <= len,
                start == i0 + 1,
                i0 < len,
                data@[i0 as int] == 108,
                len == data@.len(),
                forall|g: nat|
                    g >= data@.len() - start + 1 ==> spec_parse_elems(data@, start as nat, g)
                        == (match spec_parse_elems(data@, *idx as nat, g) {
                        Some((l, e)) => Some((view_elems(elems@) + l, e)),
                        None => None,
                    }),
            decreases len - *idx,
        {
            if *idx >= len {
                proof {
                    assert forall|f: nat| f >= data@.len() - i0 + 1 implies spec_parse_value(
                        data@,
                        i0 as nat,
                        f,
                    ) is None by {
                        assert(spec_parse_elems(data@, *idx as nat, (f - 1) as nat) is None);
                        assert(spec_parse_elems(data@, start as nat, (f - 1) as nat) is None);
                    }
                }
                return Err(TorrentError::parse_error("Unterminated list"));
            }
            if data[*idx] == 101 {
                let end = *idx + 1;
                proof {
                    lemma_view_elems(elems@);
                    assert forall|f: nat| f >= data@.len() - i0 + 1 implies spec_parse_value(
                        data@,
                        i0 as nat,
                        f,
                    ) == Some(
                        (BencodeSpecValue::List(view_elems(elems@)), end as nat),
                    ) by {
                        let g = (f - 1) as nat;
                        assert(spec_parse_elems(data@, *idx as nat, g) == Some((
                            Seq::<BencodeSpecValue>::empty(),
                            end as nat,
                        )));
                        assert(view_elems(elems@) + Seq::<BencodeSpecValue>::empty()
                            =~= view_elems(elems@));
                        assert(spec_parse_elems(data@, start as nat, g) == Some((
                            view_elems(elems@),
                            end as nat,
                        )));
                    }
                }
                *idx = end;
                return Ok(BencodeValue::List(elems));
            }
            let ghost cur = *idx;
            let ghost old_elems = elems@;
            let element = parse_value(data, idx);
            match element {
                Ok(v) => {
                    let ghost cur2 = *idx;
                    elems.push(v);
                    proof {
                        lemma_view_elems_push(old_elems, v);
                        assert forall|g: nat|
                            g >= data@.len() - start + 1 implies spec_parse_elems(
                            data@,
                            start as nat,
                            g,
                        ) == (match spec_parse_elems(data@, cur2 as nat, g) {
                            Some((l, e)) => Some((view_elems(elems@) + l, e)),
                            None => None,
                        }) by {
                            assert(spec_parse_value(data@, cur as nat, g) == Some((
                                v@,
                                cur2 as nat,
                            )));
                            assert(data@[cur as int] != 101);
                            assert(spec_parse_elems(data@, cur as nat, g)
                                == (match spec_parse_elems(data@, cur2 as nat, g) {
                                Some((l, e)) => Some((seq![bval_view(v)] + l, e)),
                                None => None,
                            }));
                            match spec_parse_elems(data@, cur2 as nat, g) {
                                Some((l, e)) => {
                                    assert((view_elems(old_elems) + (seq![bval_view(v)] + l))
                                        =~= (view_elems(old_elems) + seq![bval_view(v)]) + l);
                                },
                                None => {},
                            }
                        }
                    }
                },
                Err(e) => {
                    proof {
                        assert forall|f: nat| f >= data@.len() - i0 + 1 implies spec_parse_value(
                            data@,
                            i0 as nat,
                            f,
                        ) is None by {
                            let g = (f - 1) as nat;
                            assert(spec_parse_value(data@, cur as nat, g) is None);
                            assert(spec_parse_elems(data@, cur as nat, g) is None);
                            assert(spec_parse_elems(data@, start as nat, g) is None);
                        }
                    }
                    return Err(e);
                },
            }
        }
    }
    if b == 100 {
        // Dictionary: byte-string keys, each with a value, until 'e'.
        let start = i0 + 1;
        *idx = start;
        let mut entries: Vec<DictEntry> = Vec::new();
        loop
            invariant
                i0 == *old(idx),
                start <= *idx <= len,
                start == i0 + 1,
                i0 < len,
                data@[i0 as int] == 100,
                len == data@.len(),
                forall|g: nat|
                    g >= data@.len() - start + 1 ==> spec_parse_entries(data@, start as nat, g)
                        == (match spec_parse_entries(data@, *idx as nat, g) {
                        Some((d, e)) => Some((view_entries(entries@) + d, e)),
                        None => None,
                    }),
            decreases len - *idx,
        {
            if *idx >= len {
                proof {
                    assert forall|f: nat| f >= data@.len() - i0 + 1 implies spec_parse_value(
                        data@,
                        i0 as nat,
                        f,
                    ) is None by {
                        assert(spec_parse_entries(data@, *idx as nat, (f - 1) as nat) is None);
                        assert(spec_parse_entries(data@, start as nat, (f - 1) as nat) is None);
                    }
                }
                return Err(TorrentError::parse_error("Unterminated dictionary"));
            }
            if data[*idx] == 101 {
                let end = *idx + 1;
                proof {
                    lemma_view_entries(entries@);
                    assert forall|f: nat| f >= data@.len() - i0 + 1 implies spec_parse_value(
                        data@,
                        i0 as nat,
                        f,
                    ) == Some(
                        (BencodeSpecValue::Dict(view_entries(entries@)), end as nat),
                    ) by {
                        let g = (f - 1) as nat;
                        assert(spec_parse_entries(data@, *idx as nat, g) == Some((
                            Seq::<BencodeSpecEntry>::empty(),
                            end as nat,
                        )));
                        assert(view_entries(entries@) + Seq::<BencodeSpecEntry>::empty()
                            =~= view_entries(entries@));
                        assert(spec_parse_entries(data@, start as nat, g) == Some((
                            view_entries(entries@),
                            end as nat,
                        )));
                    }
                }
                *idx = end;
                return Ok(BencodeValue::Dict(entries));
            }
            let ghost cur = *idx;
            let ghost old_entries = entries@;
            let key_value = parse_value(data, idx);
            let key = match key_value {
                Ok(BencodeValue::Bytes(key_bytes)) => key_bytes,
                Ok(other) => {
                    proof {
                        let ghost cur2 = *idx;
                        assert forall|f: nat| f >= data@.len() - i0 + 1 implies spec_parse_value(
                            data@,
                            i0 as nat,
                            f,
                        ) is None by {
                            let g = (f - 1) as nat;
                            assert(spec_parse_value(data@, cur as nat, g) == Some((
                                other@,
                                cur2 as nat,
                            )));
                            assert(!(other@ is Bytes));
                            assert(spec_parse_entries(data@, cur as nat, g) is None);
                            assert(spec_parse_entries(data@, start as nat, g) is None);
                        }
                    }
                    return Err(TorrentError::parse_error("Dictionary key must be bytes"));
                },
                Err(e) => {
                    proof {
                        assert forall|f: nat| f >= data@.len() - i0 + 1 implies spec_parse_value(
                            data@,
                            i0 as nat,
                            f,
                        ) is None by {
                            let g = (f - 1) as nat;
                            assert(spec_parse_value(data@, cur as nat, g) is None);
                            assert(spec_parse_entries(data@, cur as nat, g) is None);
                            assert(spec_parse_entries(data@, start as nat, g) is None);
                        }
                    }
                    return Err(e);
                },
            };
            let ghost cur2 = *idx;
            let value_result = parse_value(data, idx);
            match value_result {
                Ok(v) => {
                    let ghost cur3 = *idx;
                    entries.push(DictEntry { key, value: v });
                    proof {
                        lemma_view_entries_push(
                            old_entries,
                            DictEntry { key, value: v },
                        );
                        assert forall|g: nat|
                            g >= data@.len() - start + 1 implies spec_parse_entries(
                            data@,
                            start as nat,
                            g,
                        ) == (match spec_parse_entries(data@, cur3 as nat, g) {
                            Some((d, e)) => Some((view_entries(entries@) + d, e)),
                            None => None,
                        }) by {
                            assert(spec_parse_value(data@, cur as nat, g) == Some((
                                BencodeSpecValue::Bytes(key@),
                                cur2 as nat,
                            )));
                            assert(spec_parse_value(data@, cur2 as nat, g) == Some((
                                v@,
                                cur3 as nat,
                            )));
                            assert(data@[cur as int] != 101);
                            let new_entry = BencodeSpecEntry { key: key@, value: bval_view(v) };
                            assert(spec_parse_entries(data@, cur as nat, g)
                                == (match spec_parse_entries(data@, cur3 as nat, g) {
                                Some((d, e)) => Some((seq![new_entry] + d, e)),
                                None => None,
                            }));
                            match spec_parse_entries(data@, cur3 as nat, g) {
                                Some((d, e)) => {
                                    assert((view_entries(old_entries) + (seq![new_entry] + d))
                                        =~= (view_entries(old_entries) + seq![new_entry]) + d);
                                },
                                None => {},
                            }
                        }
                    }
                },
                Err(e) => {
                    proof {
                        assert forall|f: nat| f >= data@.len() - i0 + 1 implies spec_parse_value(
                            data@,
                            i0 as nat,
                            f,
                        ) is None by {
                            let g = (f - 1) as nat;
                            assert(spec_parse_value(data@, cur as nat, g) == Some((
                                BencodeSpecValue::Bytes(key@),
                                cur2 as nat,
                            )));
                            assert(spec_parse_value(data@, cur2 as nat, g) is None);
                            assert(spec_parse_entries(data@, cur as nat, g) is None);
                            assert(spec_parse_entries(data@, start as nat, g) is None);
                        }
                    }
                    return Err(e);
                },
            }
        }
    }
    Err(TorrentError::parse_error("Unknown bencode type"))
}

/// A value whose integers fit the 64-bit range the codec carries.
pub open spec fn spec_value_wf(v: BencodeSpecValue) -> bool
    decreases v,
{
    match v {
        BencodeSpecValue::Int(x) => i64::MIN <= x <= i64::MAX,
        BencodeSpecValue::Bytes(b) => true,
        BencodeSpecValue::List(l) => spec_elems_wf(l),
        BencodeSpecValue::Dict(d) => spec_entries_wf(d),
    }
}

/// Every element of the list is well formed.
pub open spec fn spec_elems_wf(l: Seq<BencodeSpecValue>) -> bool
    decreases l,
{
    if l.len() == 0 {
        true
    } else {
        spec_value_wf(l[0]) && spec_elems_wf(l.drop_first())
    }
}

/// Every value of the dictionary is well formed.
pub open spec fn spec_entries_wf(d: Seq<BencodeSpecEntry>) -> bool
    decreases d,
{
    if d.len() == 0 {
        true
    } else {
        spec_value_wf(d[0].value) && spec_entries_wf(d.drop_first())
    }
}

/// The nesting depth of a value: the fuel its parse needs.
pub open spec fn spec_height(v: BencodeSpecValue) -> nat
    decreases v,
{
    match v {
        BencodeSpecValue::Int(_) => 1,
        BencodeSpecValue::Bytes(_) => 1,
        BencodeSpecValue::List(l) => 1 + spec_height_elems(l),
        BencodeSpecValue::Dict(d) => 1 + spec_height_entries(d),
    }
}

/// The largest nesting depth among the elements, at least one.
pub open spec fn spec_height_elems(l: Seq<BencodeSpecValue>) -> nat
    decreases l,
{
    if l.len() == 0 {
        1
    } else {
        let h = spec_height(l[0]);
        let rest = spec_height_elems(l.drop_first());
        if h >= rest {
            h
        } else {
            rest
        }
    }
}

/// The largest nesting depth among the entries' values, at least one.
pub open spec fn spec_height_entries(d: Seq<BencodeSpecEntry>) -> nat
    decreases d,
{
    if d.len() == 0 {
        1
    } else {
        let h = spec_height(d[0].value);
        let rest = spec_height_entries(d.drop_first());
        if h >= rest {
            h
        } else {
            rest
        }
    }
}

/// Every byte of a digit rendering is a digit, and there is at least one.
pub proof fn lemma_digits_shape(n: nat)
    ensures
        spec_digits(n).len() >= 1,
        forall|p: int| 0 <= p < spec_digits(n).len() ==> spec_is_digit(#[trigger] spec_digits(n)[p]),
    decreases n,
{
    if n >= 10 {
        lemma_digits_shape(n / 10);
    }
}

/// A run of digits followed by a non-digit ends exactly at the non-digit.
pub proof fn lemma_digits_end_of_run(data: Seq<u8>, i: nat, e: nat)
    requires
        i <= e <= data.len(),
        forall|p: int| i <= p < e ==> spec_is_digit(#[trigger] data[p]),
        e == data.len() || !spec_is_digit(data[e as int]),
    ensures
        spec_digits_end(data, i) == e,
    decreases e - i,
{
    if i < e {
        lemma_digits_end_of_run(data, i + 1, e);
    }
}

/// The value of a rendered digit run is the number it renders.
pub proof fn lemma_digits_val_of(data: Seq<u8>, i: nat, n: nat)
    requires
        i + spec_digits(n).len() <= data.len(),
        data.subrange(i as int, (i + spec_digits(n).len()) as int) == spec_digits(n),
    ensures
        spec_digits_val(data, i, i + spec_digits(n).len()) == n,
    decreases n,
{
    let w = spec_digits(n).len();
    if n < 10 {
        assert(data[i as int] == spec_digits(n)[0]);
        assert(spec_digits(n)[0] == (48 + n) as u8);
        assert(spec_is_digit(data[i as int]));
        assert(spec_digits_val(data, i, i) == 0);
        assert(spec_digits_val(data, i, i + 1) == spec_digits_val(data, i, i) * 10 + (
        data[i as int] - 48) as nat);
    } else {
        lemma_digits_shape(n / 10);
        let w0 = spec_digits(n / 10).len();
        assert(w == w0 + 1);
        assert(data.subrange(i as int, (i + w0) as int) =~= spec_digits(n / 10)) by {
            assert(forall|p: int|
                0 <= p < w0 ==> data.subrange(i as int, i + w as int)[p] == spec_digits(n)[p]);
        }
        lemma_digits_val_of(data, i, n / 10);
        assert(data[(i + w - 1) as int] == spec_digits(n)[w - 1]);
        assert(spec_digits(n)[w - 1] == (48 + n % 10) as u8);
        assert(spec_digits_val(data, i, i + w) == spec_digits_val(data, i, (i + w - 1) as nat) * 10
            + (n % 10));
    }
}

/// Every value has nesting depth at least one.
pub proof fn lemma_height_pos(v: BencodeSpecValue)
    ensures
        spec_height(v) >= 1,
{
    match v {
        BencodeSpecValue::Int(_) => {},
        BencodeSpecValue::Bytes(_) => {},
        BencodeSpecValue::List(_) => {},
        BencodeSpecValue::Dict(_) => {},
    }
}

/// Parsing an encoded byte string embedded in a larger byte string yields
/// the byte string and stops right after it.
pub proof fn lemma_parse_of_encode_bytes(data: Seq<u8>, i: nat, b: Seq<u8>, fuel: nat)
    requires
        i + spec_encode(BencodeSpecValue::Bytes(b)).len() <= data.len(),
        data.subrange(i as int, (i + spec_encode(BencodeSpecValue::Bytes(b)).len()) as int)
            == spec_encode(BencodeSpecValue::Bytes(b)),
        fuel >= 1,
    ensures
        spec_parse_value(data, i, fuel) == Some(
            (
                BencodeSpecValue::Bytes(b),
                (i + spec_encode(BencodeSpecValue::Bytes(b)).len()) as nat,
            ),
        ),
{
    let v = BencodeSpecValue::Bytes(b);
    let enc = spec_encode(v);
    let n = b.len();
    lemma_digits_shape(n);
    let w = spec_digits(n).len();
    assert(enc == spec_digits(n) + seq![58u8] + b);
    assert(enc.len() == w + 1 + n);
    assert(forall|p: int| i <= p < i + w ==> #[trigger] data[p] == enc[p - i] && spec_is_digit(
        enc[p - i],
    ));
    assert(data[i as int] == enc[0]);
    assert(spec_is_digit(enc[0]));
    assert(enc[0] != 105);
    assert(data[(i + w) as int] == enc[w as int]);
    assert(enc[w as int] == 58);
    assert(!spec_is_digit(58));
    lemma_digits_end_of_run(data, i, (i + w) as nat);
    assert(data.subrange(i as int, (i + w) as int) =~= spec_digits(n)) by {
        assert(forall|p: int| 0 <= p < w ==> #[trigger] data[i + p] == enc[p]);
        assert(forall|p: int| 0 <= p < w ==> enc[p] == spec_digits(n)[p]);
    }
    lemma_digits_val_of(data, i, n);
    assert(data.subrange((i + w + 1) as int, (i + w + 1 + n) as int) =~= b) by {
        assert(forall|p: int| 0 <= p < n ==> #[trigger] data[i + w + 1 + p] == enc[w + 1 + p]);
        assert(forall|p: int| 0 <= p < n ==> enc[w + 1 + p] == b[p]);
    }
    assert(spec_parse_value(data, i, fuel) == Some((v, (i + enc.len()) as nat)));
}

/// Parsing an encoded value embedded in a larger byte string yields the
/// value and stops right after it.
pub proof fn lemma_parse_of_encode(data: Seq<u8>, i: nat, v: BencodeSpecValue, fuel: nat)
    requires
        spec_value_wf(v),
        i + spec_encode(v).len() <= data.len(),
        data.subrange(i as int, (i + spec_encode(v).len()) as int) == spec_encode(v),
        fuel >= spec_height(v),
    ensures
        spec_parse_value(data, i, fuel) == Some((v, (i + spec_encode(v).len()) as nat)),
    decreases v, 0nat,
{
    let enc = spec_encode(v);
    match v {
        BencodeSpecValue::Int(x) => {
            let lit = spec_int_literal(x);
            assert(enc == seq![105u8] + lit + seq![101u8]);
            assert(data[i as int] == enc[0]);
            assert(enc[0] == 105);
            if x < 0 {
                let m = (-x) as nat;
                lemma_digits_shape(m);
                let w = spec_digits(m).len();
                assert(lit == seq![45u8] + spec_digits(m));
                assert(enc.len() == w + 3);
                assert(data[i + 1 as int] == enc[1] && enc[1] == 45);
                let start = i + 2;
                assert(forall|p: int|
                    start <= p < start + w ==> data[p] == enc[p - i] && spec_is_digit(enc[p - i]));
                assert(data[(start + w) as int] == enc[(w + 2) as int]);
                assert(enc[(w + 2) as int] == 101);
                lemma_digits_end_of_run(data, start, (start + w) as nat);
                assert(data.subrange(start as int, (start + w) as int) =~= spec_digits(m)) by {
                    assert(forall|p: int| 0 <= p < w ==> #[trigger] data[start + p] == enc[p + 2]);
                    assert(forall|p: int| 0 <= p < w ==> enc[p + 2] == spec_digits(m)[p]);
                }
                lemma_digits_val_of(data, start, m);
                assert(spec_parse_value(data, i, fuel) == Some((v, (i + enc.len()) as nat)));
            } else {
                let m = x as nat;
                lemma_digits_shape(m);
                let w = spec_digits(m).len();
                assert(lit == spec_digits(m));
                assert(enc.len() == w + 2);
                let start = i + 1;
                assert(forall|p: int|
                    start <= p < start + w ==> data[p] == enc[p - i] && spec_is_digit(enc[p - i]));
                assert(data[i + 1 as int] == enc[1]);
                assert(spec_is_digit(enc[1]));
                assert(enc[1] != 45);
                assert(data[(start + w) as int] == enc[(w + 1) as int]);
                assert(enc[(w + 1) as int] == 101);
                lemma_digits_end_of_run(data, start, (start + w) as nat);
                assert(data.subrange(start as int, (start + w) as int) =~= spec_digits(m)) by {
                    assert(forall|p: int| 0 <= p < w ==> #[trigger] data[start + p] == enc[p + 1]);
                    assert(forall|p: int| 0 <= p < w ==> enc[p + 1] == spec_digits(m)[p]);
                }
                lemma_digits_val_of(data, start, m);
                assert(spec_parse_value(data, i, fuel) == Some((v, (i + enc.len()) as nat)));
            }
        },
        BencodeSpecValue::Bytes(b) => {
            lemma_parse_of_encode_bytes(data, i, b, fuel);
        },
        BencodeSpecValue::List(l) => {
            assert(enc == seq![108u8] + spec_encode_elems(l) + seq![101u8]);
            assert(data[i as int] == enc[0] && enc[0] == 108);
            assert(!spec_is_digit(108));
            let body = spec_encode_elems(l);
            assert(data.subrange((i + 1) as int, (i + 1 + body.len()) as int) =~= body) by {
                assert(forall|p: int| 0 <= p < body.len() ==> #[trigger] data[i + 1 + p] == enc[1 + p]);
                assert(forall|p: int| 0 <= p < body.len() ==> enc[1 + p] == body[p]);
            }
            assert(data[(i + 1 + body.len()) as int] == enc[(1 + body.len()) as int]);
            assert(enc[(1 + body.len()) as int] == 101);
            lemma_parse_elems_of_encode(data, (i + 1) as nat, l, (fuel - 1) as nat);
            assert(spec_parse_value(data, i, fuel) == Some((v, (i + enc.len()) as nat)));
        },
        BencodeSpecValue::Dict(d) => {
            assert(enc == seq![100u8] + spec_encode_entries(d) + seq![101u8]);
            assert(data[i as int] == enc[0] && enc[0] == 100);
            assert(!spec_is_digit(100));
            let body = spec_encode_entries(d);
            assert(data.subrange((i + 1) as int, (i + 1 + body.len()) as int) =~= body) by {
                assert(forall|p: int| 0 <= p < body.len() ==> #[trigger] data[i + 1 + p] == enc[1 + p]);
                assert(forall|p: int| 0 <= p < body.len() ==> enc[1 + p] == body[p]);
            }
            assert(data[(i + 1 + body.len()) as int] == enc[(1 + body.len()) as int]);
            assert(enc[(1 + body.len()) as int] == 101);
            lemma_parse_entries_of_encode(data, (i + 1) as nat, d, (fuel - 1) as nat);
            assert(spec_parse_value(data, i, fuel) == Some((v, (i + enc.len()) as nat)));
        },
    }
}

/// Parsing an encoded element run followed by `e` yields the elements.
pub proof fn lemma_parse_elems_of_encode(data: Seq<u8>, i: nat, l: Seq<BencodeSpecValue>, fuel: nat)
    requires
        spec_elems_wf(l),
        i + spec_encode_elems(l).len() + 1 <= data.len(),
        data.subrange(i as int, (i + spec_encode_elems(l).len()) as int) == spec_encode_elems(l),
        data[(i + spec_encode_elems(l).len()) as int] == 101,
        fuel >= spec_height_elems(l),
    ensures
        spec_parse_elems(data, i, fuel) == Some((l, (i + spec_encode_elems(l).len() + 1) as nat)),
    decreases l, 1nat,
{
    let body = spec_encode_elems(l);
    if l.len() == 0 {
        assert(body.len() == 0);
        assert(data[i as int] == 101);
        assert(Seq::<BencodeSpecValue>::empty() =~= l);
    } else {
        let head = l[0];
        let rest = l.drop_first();
        let e0 = spec_encode(head);
        assert(body == e0 + spec_encode_elems(rest));
        lemma_encode_value_nonempty(head);
        assert(data.subrange(i as int, (i + e0.len()) as int) =~= e0) by {
            assert(forall|p: int| 0 <= p < e0.len() ==> #[trigger] data[i + p] == body[p]);
            assert(forall|p: int| 0 <= p < e0.len() ==> body[p] == e0[p]);
        }
        lemma_parse_of_encode(data, i, head, fuel);
        let j = i + e0.len();
        assert(data[i as int] == e0[0]);
        lemma_encode_head_not_end(head);
        assert(data[i as int] != 101);
        let rest_body = spec_encode_elems(rest);
        assert(data.subrange(j as int, (j + rest_body.len()) as int) =~= rest_body) by {
            assert(forall|p: int| 0 <= p < rest_body.len() ==> #[trigger] data[j + p] == body[e0.len() + p]);
            assert(forall|p: int|
                0 <= p < rest_body.len() ==> body[e0.len() + p] == rest_body[p]);
        }
        assert(data[(j + rest_body.len()) as int] == 101);
        lemma_parse_elems_of_encode(data, j as nat, rest, fuel);
        assert(seq![head] + rest =~= l);
        assert(spec_parse_elems(data, i, fuel) == Some((l, (i + body.len() + 1) as nat)));
    }
}

/// Parsing an encoded entry run followed by `e` yields the entries.
pub proof fn lemma_parse_entries_of_encode(
    data: Seq<u8>,
    i: nat,
    d: Seq<BencodeSpecEntry>,
    fuel: nat,
)
    requires
        spec_entries_wf(d),
        i + spec_encode_entries(d).len() + 1 <= data.len(),
        data.subrange(i as int, (i + spec_encode_entries(d).len()) as int) == spec_encode_entries(d),
        data[(i + spec_encode_entries(d).len()) as int] == 101,
        fuel >= spec_height_entries(d),
    ensures
        spec_parse_entries(data, i, fuel) == Some(
            (d, (i + spec_encode_entries(d).len() + 1) as nat),
        ),
    decreases d, 1nat,
{
    let body = spec_encode_entries(d);
    if d.len() == 0 {
        assert(body.len() == 0);
        assert(data[i as int] == 101);
        assert(Seq::<BencodeSpecEntry>::empty() =~= d);
    } else {
        let head = d[0];
        let rest = d.drop_first();
        let key_enc = spec_encode(BencodeSpecValue::Bytes(head.key));
        let val_enc = spec_encode(head.value);
        assert(body == key_enc + val_enc + spec_encode_entries(rest)) by {
            assert(key_enc == spec_digits(head.key.len()) + seq![58u8] + head.key);
        }
        lemma_encode_value_nonempty(BencodeSpecValue::Bytes(head.key));
        lemma_encode_value_nonempty(head.value);
        assert(data.subrange(i as int, (i + key_enc.len()) as int) =~= key_enc) by {
            assert(forall|p: int| 0 <= p < key_enc.len() ==> #[trigger] data[i + p] == body[p]);
            assert(forall|p: int| 0 <= p < key_enc.len() ==> body[p] == key_enc[p]);
        }
        lemma_height_pos(head.value);
        lemma_parse_of_encode_bytes(data, i, head.key, fuel);
        let j = i + key_enc.len();
        assert(data[i as int] == key_enc[0]);
        lemma_encode_head_not_end(BencodeSpecValue::Bytes(head.key));
        assert(data[i as int] != 101);
        assert(data.subrange(j as int, (j + val_enc.len()) as int) =~= val_enc) by {
            assert(forall|p: int| 0 <= p < val_enc.len() ==> #[trigger] data[j + p] == body[key_enc.len() + p]);
            assert(forall|p: int|
                0 <= p < val_enc.len() ==> body[key_enc.len() + p] == val_enc[p]);
        }
        lemma_parse_of_encode(data, j as nat, head.value, fuel);
        let j2 = j + val_enc.len();
        let rest_body = spec_encode_entries(rest);
        assert(data.subrange(j2 as int, (j2 + rest_body.len()) as int) =~= rest_body) by {
            assert(forall|p: int|
                0 <= p < rest_body.len() ==> #[trigger] data[j2 + p] == body[key_enc.len()
                    + val_enc.len() + p]);
            assert(forall|p: int|
                0 <= p < rest_body.len() ==> body[key_enc.len() + val_enc.len() + p]
                    == rest_body[p]);
        }
        assert(data[(j2 + rest_body.len()) as int] == 101);
        lemma_parse_entries_of_encode(data, j2 as nat, rest, fuel);
        assert(seq![head] + rest =~= d);
        assert(spec_parse_entries(data, i, fuel) == Some((d, (i + body.len() + 1) as nat)));
    }
}

/// An encoding is never empty.
pub proof fn lemma_encode_value_nonempty(v: BencodeSpecValue)
    ensures
        spec_encode(v).len() >= 1,
{
    match v {
        BencodeSpecValue::Int(x) => {},
        BencodeSpecValue::Bytes(b) => {
            lemma_digits_shape(b.len());
        },
        BencodeSpecValue::List(_) => {},
        BencodeSpecValue::Dict(_) => {},
    }
}

/// An encoding never begins with the terminator byte `e`.
pub proof fn lemma_encode_head_not_end(v: BencodeSpecValue)
    ensures
        spec_encode(v).len() >= 1,
        spec_encode(v)[0] != 101,
{
    match v {
        BencodeSpecValue::Int(x) => {},
        BencodeSpecValue::Bytes(b) => {
            lemma_digits_shape(b.len());
            assert(spec_encode(v)[0] == spec_digits(b.len())[0]);
            assert(spec_is_digit(spec_digits(b.len())[0]));
        },
        BencodeSpecValue::List(_) => {},
        BencodeSpecValue::Dict(_) => {},
    }
}

/// The nesting depth of a value never exceeds the length of its encoding.
pub proof fn lemma_height_le_encode(v: BencodeSpecValue)
    ensures
        spec_height(v) <= spec_encode(v).len(),
    decreases v, 0nat,
{
    match v {
        BencodeSpecValue::Int(_) => {},
        BencodeSpecValue::Bytes(b) => {
            lemma_digits_shape(b.len());
        },
        BencodeSpecValue::List(l) => {
            lemma_height_elems_le_encode(l);
        },
        BencodeSpecValue::Dict(d) => {
            lemma_height_entries_le_encode(d);
        },
    }
}

/// The largest nesting depth among a list's elements never exceeds the
/// length of their concatenated encodings, plus one.
proof fn lemma_height_elems_le_encode(l: Seq<BencodeSpecValue>)
    ensures
        spec_height_elems(l) <= spec_encode_elems(l).len() + 1,
    decreases l, 1nat,
{
    if l.len() > 0 {
        lemma_height_le_encode(l[0]);
        lemma_height_elems_le_encode(l.drop_first());
        lemma_encode_value_nonempty(l[0]);
    }
}

/// The largest nesting depth among a dictionary's values never exceeds
/// the length of the entries' concatenated encodings, plus one.
proof fn lemma_height_entries_le_encode(d: Seq<BencodeSpecEntry>)
    ensures
        spec_height_entries(d) <= spec_encode_entries(d).len() + 1,
    decreases d, 1nat,
{
    if d.len() > 0 {
        lemma_height_le_encode(d[0].value);
        lemma_height_entries_le_encode(d.drop_first());
        lemma_encode_value_nonempty(d[0].value);
        lemma_digits_shape(d[0].key.len());
    }
}

/// Decoding an encoded value yields the value: the round trip law of the
/// bencode codec. It holds of every value, dictionaries included, whatever
/// order their keys stand in.
pub proof fn lemma_bencode_round_trip(v: BencodeSpecValue, fuel: nat)
    requires
        spec_value_wf(v),
        fuel >= spec_height(v),
    ensures
        spec_parse_value(spec_encode(v), 0, fuel) == Some((v, spec_encode(v).len())),
{
    let enc = spec_encode(v);
    assert(enc.subrange(0, enc.len() as int) == enc);
    lemma_parse_of_encode(enc, 0, v, fuel);
}

} // verus!
