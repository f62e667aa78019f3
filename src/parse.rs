use vstd::prelude::*;

use crate::count::{key_count, parse_key_count};
use crate::{
    INVALID_CURRENCIES_FORMAT, KEYS_SYMBOL, KEY_COUNT_ERROR, KEY_SYMBOL, METAL_COUNT_ERROR,
    METAL_SYMBOL, NO_CURRENCY_ERROR,
};

verus! {

/// The pieces of `s[start..]` when it is cut at each occurrence of `sep`,
/// found by scanning from `i` to the right; `start` is where the current piece began.
pub open spec fn split_from(s: Seq<char>, sep: Seq<char>, start: int, i: int) -> Seq<Seq<char>>
    decreases s.len() - i,
{
    if sep.len() == 0 || i + sep.len() > s.len() {
        seq![s.subrange(start, s.len() as int)]
    } else if s.subrange(i, i + sep.len()) == sep {
        seq![s.subrange(start, i)] + split_from(s, sep, i + sep.len(), i + sep.len())
    } else {
        split_from(s, sep, start, i + 1)
    }
}

/// `s` cut at each occurrence of `sep`, left to right, the occurrences dropped.
pub open spec fn split_on(s: Seq<char>, sep: Seq<char>) -> Seq<Seq<char>> {
    split_from(s, sep, 0, 0)
}

/// The characters of `s`, in order.
fn chars_of(s: &str) -> (r: Vec<char>)
    ensures
        r@ == s@,
{
    let mut r: Vec<char> = Vec::new();
    for c in it: s.chars()
        invariant
            r@ == it.seq().take(it.index() as int),
    {
        r.push(c);
    }
    r
}

/// A copy of `s[lo..hi]`.
fn copy_range(s: &Vec<char>, lo: usize, hi: usize) -> (r: Vec<char>)
    requires
        lo <= hi <= s.len(),
    ensures
        r@ == s@.subrange(lo as int, hi as int),
{
    let mut r: Vec<char> = Vec::new();
    let mut j: usize = lo;
    while j < hi
        invariant
            lo <= j <= hi <= s.len(),
            r@ == s@.subrange(lo as int, j as int),
        decreases hi - j,
    {
        r.push(s[j]);
        j = j + 1;
    }
    r
}

/// Whether `sep` occurs in `s` at position `i`.
fn occurs_at(s: &Vec<char>, sep: &Vec<char>, i: usize) -> (r: bool)
    requires
        i + sep.len() <= s.len(),
    ensures
        r == (s@.subrange(i as int, i + sep.len()) == sep@),
{
    let mut j: usize = 0;
    while j < sep.len()
        invariant
            i + sep.len() <= s.len(),
            j <= sep.len(),
            s@.subrange(i as int, i + j) == sep@.subrange(0, j as int),
        decreases sep.len() - j,
    {
        if s[i + j] != sep[j] {
            assert(s@.subrange(i as int, i + sep.len())[j as int] != sep@[j as int]);
            return false;
        }
        assert(s@.subrange(i as int, i + j + 1) =~= s@.subrange(i as int, i + j).push(s@[i + j]));
        assert(sep@.subrange(0, j + 1) =~= sep@.subrange(0, j as int).push(sep@[j as int]));
        j = j + 1;
    }
    assert(sep@.subrange(0, sep.len() as int) =~= sep@);
    true
}

/// `s` cut at each occurrence of `sep`.
fn split_chars(s: &Vec<char>, sep: &Vec<char>) -> (r: Vec<Vec<char>>)
    requires
        sep.len() > 0,
    ensures
        r.len() == split_on(s@, sep@).len(),
        forall|k: int| 0 <= k < r.len() ==> #[trigger] r[k]@ == split_on(s@, sep@)[k],
{
    let mut r: Vec<Vec<char>> = Vec::new();
    let ghost mut done: Seq<Seq<char>> = Seq::empty();
    let mut start: usize = 0;
    let mut i: usize = 0;
    while sep.len() <= s.len() - i
        invariant
            sep.len() > 0,
            start <= i <= s.len(),
            r.len() == done.len(),
            forall|k: int| 0 <= k < r.len() ==> #[trigger] r[k]@ == done[k],
            done + split_from(s@, sep@, start as int, i as int) == split_on(s@, sep@),
        decreases s.len() - i,
    {
        if occurs_at(s, sep, i) {
            let piece = copy_range(s, start, i);
            proof {
                assert(done.push(piece@) + split_from(s@, sep@, (i + sep.len()) as int, (i + sep.len()) as int)
                    =~= done + split_from(s@, sep@, start as int, i as int));
                done = done.push(piece@);
            }
            r.push(piece);
            i = i + sep.len();
            start = i;
        } else {
            i = i + 1;
        }
    }
    let last = copy_range(s, start, s.len());
    proof {
        assert(done.push(last@) =~= done + split_from(s@, sep@, start as int, i as int));
        done = done.push(last@);
    }
    r.push(last);
    r
}

/// What a currency string is made of: its elements are cut at `", "`.
pub open spec fn elements_of(s: Seq<char>) -> Seq<Seq<char>> {
    split_on(s, seq![',', ' '])
}

/// The tokens of one element, cut at each single space.
pub open spec fn tokens_of(e: Seq<char>) -> Seq<Seq<char>> {
    split_on(e, seq![' '])
}

/// The symbol of one key.
pub open spec fn key_symbol() -> Seq<char> {
    KEY_SYMBOL@
}

/// The symbol of several keys.
pub open spec fn keys_symbol() -> Seq<char> {
    KEYS_SYMBOL@
}

/// The symbol of refined metal.
pub open spec fn metal_symbol() -> Seq<char> {
    METAL_SYMBOL@
}

/// What one element of a currency string denotes.
#[derive(Clone, Copy, Debug, PartialEq, Eq, Structural)]
pub enum ElementKind {
    /// A count of keys.
    Keys,
    /// A count of refined metal.
    Metal,
    /// Not exactly two space-separated tokens.
    Malformed,
    /// Two tokens, but the second is no known symbol.
    Unknown,
}

/// The kind of the element `e`, decided by its shape and its symbol.
pub open spec fn kind_of(e: Seq<char>) -> ElementKind {
    let t = tokens_of(e);
    if t.len() != 2 {
        ElementKind::Malformed
    } else if t[1] == key_symbol() || t[1] == keys_symbol() {
        ElementKind::Keys
    } else if t[1] == metal_symbol() {
        ElementKind::Metal
    } else {
        ElementKind::Unknown
    }
}

/// The count token of the element `e`; empty where `e` is malformed.
pub open spec fn count_of(e: Seq<char>) -> Seq<char> {
    if kind_of(e) == ElementKind::Malformed {
        Seq::empty()
    } else {
        tokens_of(e)[0]
    }
}

/// One element of a currency string: its kind and its count token.
pub struct Element {
    pub kind: ElementKind,
    pub count: Vec<char>,
}

/// Whether `a` and `b` hold the same characters.
fn same_chars(a: &Vec<char>, b: &Vec<char>) -> (r: bool)
    ensures
        r == (a@ == b@),
{
    if a.len() != b.len() {
        return false;
    }
    let mut j: usize = 0;
    while j < a.len()
        invariant
            a.len() == b.len(),
            j <= a.len(),
            a@.subrange(0, j as int) == b@.subrange(0, j as int),
        decreases a.len() - j,
    {
        if a[j] != b[j] {
            return false;
        }
        assert(a@.subrange(0, j + 1) =~= a@.subrange(0, j as int).push(a@[j as int]));
        assert(b@.subrange(0, j + 1) =~= b@.subrange(0, j as int).push(b@[j as int]));
        j = j + 1;
    }
    assert(a@.subrange(0, a.len() as int) =~= a@);
    assert(b@.subrange(0, b.len() as int) =~= b@);
    true
}

/// Classifies one element and picks out its count token.
fn classify(e: &Vec<char>) -> (r: Element)
    ensures
        r.kind == kind_of(e@),
        r.count@ == count_of(e@),
{
    let space: Vec<char> = vec![' '];
    let tokens = split_chars(e, &space);
    assert(space@ =~= seq![' ']);
    if tokens.len() != 2 {
        return Element { kind: ElementKind::Malformed, count: Vec::new() };
    }
    let key = chars_of(KEY_SYMBOL);
    let keys = chars_of(KEYS_SYMBOL);
    let metal = chars_of(METAL_SYMBOL);
    let kind = if same_chars(&tokens[1], &key) || same_chars(&tokens[1], &keys) {
        ElementKind::Keys
    } else if same_chars(&tokens[1], &metal) {
        ElementKind::Metal
    } else {
        ElementKind::Unknown
    };
    let count = tokens[0].clone();
    Element { kind, count }
}

/// Cuts a currency string into its elements and classifies each.
pub fn split_elements(s: &str) -> (r: Vec<Element>)
    ensures
        r.len() == elements_of(s@).len(),
        forall|k: int|
            0 <= k < r.len() ==> #[trigger] r[k].kind == kind_of(elements_of(s@)[k])
                && r[k].count@ == count_of(elements_of(s@)[k]),
{
    let chars = chars_of(s);
    let sep: Vec<char> = vec![',', ' '];
    assert(sep@ =~= seq![',', ' ']);
    let pieces = split_chars(&chars, &sep);
    let mut r: Vec<Element> = Vec::new();
    let mut k: usize = 0;
    while k < pieces.len()
        invariant
            chars@ == s@,
            pieces.len() == elements_of(s@).len(),
            forall|j: int| 0 <= j < pieces.len() ==> #[trigger] pieces[j]@ == elements_of(s@)[j],
            k <= pieces.len(),
            r.len() == k,
            forall|j: int|
                0 <= j < k ==> #[trigger] r[j].kind == kind_of(elements_of(s@)[j])
                    && r[j].count@ == count_of(elements_of(s@)[j]),
        decreases pieces.len() - k,
    {
        let e = classify(&pieces[k]);
        r.push(e);
        k = k + 1;
    }
    r
}

/// Why a currency string could not be parsed.
#[derive(Clone, Copy, Debug, PartialEq, Eq, Structural)]
pub enum ParseError {
    /// An element is not exactly two space-separated tokens.
    MalformedElement,
    /// The count of a key element is no integer that fits.
    UnparsableKeyCount,
    /// The count of a metal element could not be read as a number.
    UnparsableMetalCount,
    /// The symbol of an element is none of the known ones.
    UnknownSymbol,
    /// Neither keys nor metal came out different from zero.
    NoCurrencyParsed,
}

impl ParseError {
    /// A sentence that describes the error; a malformed element and an
    /// unknown symbol share one.
    pub fn message(&self) -> (r: &'static str)
        ensures
            r == (match *self {
                ParseError::MalformedElement => INVALID_CURRENCIES_FORMAT,
                ParseError::UnparsableKeyCount => KEY_COUNT_ERROR,
                ParseError::UnparsableMetalCount => METAL_COUNT_ERROR,
                ParseError::UnknownSymbol => INVALID_CURRENCIES_FORMAT,
                ParseError::NoCurrencyParsed => NO_CURRENCY_ERROR,
            }),
    {
        match self {
            ParseError::MalformedElement => INVALID_CURRENCIES_FORMAT,
            ParseError::UnparsableKeyCount => KEY_COUNT_ERROR,
            ParseError::UnparsableMetalCount => METAL_COUNT_ERROR,
            ParseError::UnknownSymbol => INVALID_CURRENCIES_FORMAT,
            ParseError::NoCurrencyParsed => NO_CURRENCY_ERROR,
        }
    }
}

/// The outcome of parsing the elements `elems` from index `i` on, with `keys`
/// and `metal` read so far. `metal_readings[j]` is what the count of element
/// `j` reads as, where that element is a metal one. The first element that
/// fails decides the error; a later element of one denomination replaces what
/// an earlier one gave.
pub open spec fn parsed_from(
    elems: Seq<Seq<char>>,
    metal_readings: Seq<Option<i32>>,
    i: int,
    keys: i64,
    metal: i32,
) -> Result<(i64, i32), ParseError>
    decreases elems.len() - i,
{
    if i < 0 || i >= elems.len() {
        if keys == 0 && metal == 0 {
            Err(ParseError::NoCurrencyParsed)
        } else {
            Ok((keys, metal))
        }
    } else {
        match kind_of(elems[i]) {
            ElementKind::Malformed => Err(ParseError::MalformedElement),
            ElementKind::Unknown => Err(ParseError::UnknownSymbol),
            ElementKind::Keys => match key_count(count_of(elems[i])) {
                Some(k) => parsed_from(elems, metal_readings, i + 1, k, metal),
                None => Err(ParseError::UnparsableKeyCount),
            },
            ElementKind::Metal => match metal_readings[i] {
                Some(m) => parsed_from(elems, metal_readings, i + 1, keys, m),
                None => Err(ParseError::UnparsableMetalCount),
            },
        }
    }
}

/// The outcome of parsing the currency string `s`, the counts of its metal
/// elements read as `metal_readings`.
pub open spec fn parsed(s: Seq<char>, metal_readings: Seq<Option<i32>>) -> Result<(i64, i32), ParseError> {
    parsed_from(elements_of(s), metal_readings, 0, 0, 0)
}

/// Parses a currency string such as `"2 keys, 23.33 ref"` into a key count
/// and a scaled metal value. Reading a decimal metal count is left to the
/// caller: `metal_readings[j]` is the scaled value of the count of element `j`
/// (see `split_elements`) where that element is a metal one, or `None` where
/// the count is no number; the entries of other elements are not looked at.
pub fn parse_from_string(s: &str, metal_readings: &Vec<Option<i32>>) -> (r: Result<(i64, i32), ParseError>)
    requires
        metal_readings.len() == elements_of(s@).len(),
    ensures
        r == parsed(s@, metal_readings@),
{
    let elements = split_elements(s);
    let ghost elems = elements_of(s@);
    let mut keys: i64 = 0;
    let mut metal: i32 = 0;
    let mut i: usize = 0;
    while i < elements.len()
        invariant
            elems == elements_of(s@),
            elements.len() == elems.len(),
            metal_readings.len() == elems.len(),
            forall|k: int|
                0 <= k < elements.len() ==> #[trigger] elements[k].kind == kind_of(elems[k])
                    && elements[k].count@ == count_of(elems[k]),
            i <= elements.len(),
            parsed_from(elems, metal_readings@, i as int, keys, metal) == parsed(s@, metal_readings@),
        decreases elements.len() - i,
    {
        let e = &elements[i];
        match e.kind {
            ElementKind::Malformed => {
                return Err(ParseError::MalformedElement);
            },
            ElementKind::Unknown => {
                return Err(ParseError::UnknownSymbol);
            },
            ElementKind::Keys => {
                match parse_key_count(&e.count) {
                    Some(k) => {
                        keys = k;
                    },
                    None => {
                        return Err(ParseError::UnparsableKeyCount);
                    },
                }
            },
            ElementKind::Metal => {
                match metal_readings[i] {
                    Some(m) => {
                        metal = m;
                    },
                    None => {
                        return Err(ParseError::UnparsableMetalCount);
                    },
                }
            },
        }
        i = i + 1;
    }
    if keys == 0 && metal == 0 {
        Err(ParseError::NoCurrencyParsed)
    } else {
        Ok((keys, metal))
    }
}

} // verus!
