//! The structured form of inbound payloads: a flat key/value document, a
//! strict subset of the familiar brace syntax, e.g. `{"a":1,"bb":22}`.
//!
//! Grammar, over bytes:
//!   - document:  `{` `}` holding no entry, or `{` entries `}`; nothing may
//!     precede or follow the braces;
//!   - entries:   one entry, or an entry, a comma and further entries;
//!   - entry:     `"` key `"` `:` number;
//!   - key:       any run of printable ASCII bytes other than the quote and
//!     the backslash (there are no escapes);
//!   - number:    a maximal run of one to eighteen decimal digits.
//!
//! The canonical rendering writes the same document back with no whitespace
//! and no leading zeros, so parsing and re-rendering is the canonicalization
//! that the payload decoder applies. [`lemma_parse_render_roundtrip`] proves
//! the two are inverse, which makes that canonicalization idempotent.
//!
//! The eighteen-digit bound keeps every value below 10^18, so values fit
//! comfortably in a `u64`; an overlong run of digits simply fails the parse,
//! and the payload falls back to its plain text form.

use vstd::prelude::*;

verus! {

/// Decimal digit bytes `0` to `9`.
pub open spec fn is_digit(b: u8) -> bool {
    0x30 <= b <= 0x39
}

/// Bytes a key may hold: printable ASCII except the quote and the backslash.
pub open spec fn is_key_byte(b: u8) -> bool {
    0x20 <= b <= 0x7E && b != 0x22 && b != 0x5C
}

/// Largest number of digits a number may have.
pub open spec fn max_digits() -> nat {
    18
}

/// Exclusive upper bound on document values: 10 to the [`max_digits`].
pub open spec fn value_bound() -> nat {
    1_000_000_000_000_000_000
}

/// How many leading bytes of `s` form the key of an entry, when the run of
/// key bytes is closed by a quote; `None` when it is not.
pub open spec fn key_len(s: Seq<u8>) -> Option<nat>
    decreases s.len(),
{
    if s.len() == 0 {
        None
    } else if s[0] == 0x22 {
        Some(0)
    } else if is_key_byte(s[0]) {
        match key_len(s.drop_first()) {
            Some(k) => Some(k + 1),
            None => None,
        }
    } else {
        None
    }
}

/// Length of the maximal run of digit bytes at the front of `s`.
pub open spec fn digit_run(s: Seq<u8>) -> nat
    decreases s.len(),
{
    if s.len() > 0 && is_digit(s[0]) {
        1 + digit_run(s.drop_first())
    } else {
        0
    }
}

/// The value of a sequence of digit bytes, most significant first.
pub open spec fn dec_val(ds: Seq<u8>) -> nat
    decreases ds.len(),
{
    if ds.len() == 0 {
        0
    } else {
        dec_val(ds.drop_last()) * 10 + ((ds.last() - 0x30) as nat)
    }
}

/// 10 to the `k`.
pub open spec fn pow10(k: nat) -> nat
    decreases k,
{
    if k == 0 {
        1
    } else {
        10 * pow10((k - 1) as nat)
    }
}

/// Parses a number at the front of `s`: its value and the remaining suffix.
pub open spec fn parse_num(s: Seq<u8>) -> Option<(nat, Seq<u8>)> {
    let k = digit_run(s);
    if 1 <= k <= max_digits() {
        Some((dec_val(s.take(k as int)), s.skip(k as int)))
    } else {
        None
    }
}

/// Parses one `"key":number` entry at the front of `s`: the entry and the
/// remaining suffix.
pub open spec fn parse_entry(s: Seq<u8>) -> Option<((Seq<u8>, nat), Seq<u8>)> {
    if s.len() == 0 || s[0] != 0x22 {
        None
    } else {
        match key_len(s.skip(1)) {
            None => None,
            Some(k) => {
                let key = s.subrange(1, 1 + k as int);
                let rest = s.skip(2 + k as int);
                if rest.len() == 0 || rest[0] != 0x3A {
                    None
                } else {
                    match parse_num(rest.skip(1)) {
                        None => None,
                        Some((v, rest2)) => Some(((key, v), rest2)),
                    }
                }
            },
        }
    }
}

/// Parses a comma-separated run of entries at the front of `s`. An entry
/// consumes at least one byte, so the recursion is on a strictly shorter
/// suffix; the length check makes that visible to the termination measure.
pub open spec fn parse_entries(s: Seq<u8>) -> Option<(Seq<(Seq<u8>, nat)>, Seq<u8>)>
    decreases s.len(),
{
    match parse_entry(s) {
        None => None,
        Some((e, rest)) => {
            if rest.len() > 0 && rest[0] == 0x2C {
                if rest.len() < s.len() {
                    match parse_entries(rest.skip(1)) {
                        None => None,
                        Some((es, rest2)) => Some((seq![e] + es, rest2)),
                    }
                } else {
                    None
                }
            } else {
                Some((seq![e], rest))
            }
        },
    }
}

/// Parses a whole document: `s` must be exactly one braced entry list.
pub open spec fn parse_doc(s: Seq<u8>) -> Option<Seq<(Seq<u8>, nat)>> {
    if s.len() < 2 || s[0] != 0x7B {
        None
    } else if s[1] == 0x7D {
        if s.len() == 2 {
            Some(Seq::empty())
        } else {
            None
        }
    } else {
        match parse_entries(s.skip(1)) {
            None => None,
            Some((es, rest)) => {
                if rest.len() == 1 && rest[0] == 0x7D {
                    Some(es)
                } else {
                    None
                }
            },
        }
    }
}

/// The canonical digits of `n`: most significant first, no leading zero.
pub open spec fn digits_of(n: nat) -> Seq<u8>
    decreases n,
{
    if n < 10 {
        seq![(0x30 + n) as u8]
    } else {
        digits_of(n / 10).push((0x30 + n % 10) as u8)
    }
}

/// Canonical rendering of one entry: `"key":value`.
pub open spec fn render_entry(e: (Seq<u8>, nat)) -> Seq<u8> {
    seq![0x22u8] + e.0 + seq![0x22u8, 0x3Au8] + digits_of(e.1)
}

/// Canonical rendering of an entry list, comma separated.
pub open spec fn render_entries(es: Seq<(Seq<u8>, nat)>) -> Seq<u8>
    decreases es.len(),
{
    if es.len() == 0 {
        Seq::empty()
    } else if es.len() == 1 {
        render_entry(es[0])
    } else {
        render_entry(es[0]) + seq![0x2Cu8] + render_entries(es.drop_first())
    }
}

/// Canonical rendering of a document: the braced entry list, no whitespace.
pub open spec fn render_doc(es: Seq<(Seq<u8>, nat)>) -> Seq<u8> {
    seq![0x7Bu8] + render_entries(es) + seq![0x7Du8]
}

/// A well-formed entry: every key byte is a key byte, and the value is below
/// [`value_bound`] — exactly what parsing can produce.
pub open spec fn entry_wf(e: (Seq<u8>, nat)) -> bool {
    &&& forall|i: int| 0 <= i < e.0.len() ==> is_key_byte(#[trigger] e.0[i])
    &&& e.1 < value_bound()
}

/// A well-formed document: every entry is.
pub open spec fn doc_wf(es: Seq<(Seq<u8>, nat)>) -> bool {
    forall|i: int| 0 <= i < es.len() ==> entry_wf(#[trigger] es[i])
}

/// One key/value entry of a parsed document.
pub struct Entry {
    pub key: Vec<u8>,
    pub value: u64,
}

impl View for Entry {
    type V = (Seq<u8>, nat);

    open spec fn view(&self) -> (Seq<u8>, nat) {
        (self.key@, self.value as nat)
    }
}

impl DeepView for Entry {
    type V = (Seq<u8>, nat);

    open spec fn deep_view(&self) -> (Seq<u8>, nat) {
        self@
    }
}

/// Parses a number starting at index `i`; on success returns the value and
/// the index just past its digits.
fn parse_num_at(s: &Vec<u8>, i: usize) -> (r: Option<(u64, usize)>)
    requires
        i <= s@.len(),
    ensures
        match r {
            Some(p) => {
                &&& parse_num(s@.skip(i as int)) == Some(
                    ((p.0 as nat), s@.skip(p.1 as int)),
                )
                &&& i < p.1 <= s@.len()
            },
            None => parse_num(s@.skip(i as int)) is None,
        },
{
    let ghost suf = s@.skip(i as int);
    let mut j: usize = i;
    while j < s.len() && j - i < 19 && 0x30 <= s[j] && s[j] <= 0x39
        invariant
            i <= j <= s@.len(),
            j - i <= 19,
            forall|t: int| i <= t < j ==> is_digit(#[trigger] s@[t]),
        decreases s@.len() - j,
    {
        j = j + 1;
    }
    let k = j - i;
    proof {
        assert(forall|t: int| 0 <= t < k ==> suf[t] == s@[i + t]);
    }
    if k == 0 || k == 19 {
        proof {
            if k == 0 {
                lemma_digit_run_at_most(suf, 0);
            } else {
                lemma_digit_run_at_least(suf, 19);
            }
        }
        return None;
    }
    proof {
        lemma_digit_run_exact(suf, k as nat);
        lemma_dec_val_bound(suf.take(k as int));
        lemma_pow10_increases(k as nat, max_digits());
        assert(pow10(max_digits()) == value_bound()) by {
            reveal_with_fuel(pow10, 19);
        }
    }
    let mut acc: u64 = 0;
    let mut t: usize = i;
    while t < j
        invariant
            i <= t <= j <= s@.len(),
            j - i == k,
            1 <= k <= 18,
            forall|q: int| i <= q < j ==> is_digit(#[trigger] s@[q]),
            suf == s@.skip(i as int),
            forall|q: int| 0 <= q < k ==> suf[q] == s@[i + q],
            acc as nat == dec_val(suf.take(t - i)),
            (acc as nat) < pow10((t - i) as nat),
            pow10((t - i) as nat) <= pow10(max_digits()),
            pow10(max_digits()) == value_bound(),
        decreases j - t,
    {
        let d = s[t] - 0x30;
        proof {
            assert(suf.take(t - i + 1).drop_last() =~= suf.take(t - i));
            assert(suf.take(t - i + 1).last() == s@[t as int]);
            lemma_pow10_increases((t - i + 1) as nat, max_digits());
            assert(pow10((t - i + 1) as nat) == 10 * pow10((t - i) as nat)) by {
                assert(((t - i + 1) as nat - 1) as nat == (t - i) as nat);
            }
        }
        acc = acc * 10 + (d as u64);
        t = t + 1;
    }
    proof {
        assert(suf.take(k as int) =~= s@.subrange(i as int, j as int));
        assert(suf.skip(k as int) =~= s@.skip(j as int));
    }
    Some((acc, j))
}

/// Parses one entry starting at index `i`; on success returns the entry and
/// the index just past its number.
fn parse_entry_at(s: &Vec<u8>, i: usize) -> (r: Option<(Entry, usize)>)
    requires
        i <= s@.len(),
    ensures
        match r {
            Some(p) => {
                &&& parse_entry(s@.skip(i as int)) == Some((p.0@, s@.skip(p.1 as int)))
                &&& i < p.1 <= s@.len()
            },
            None => parse_entry(s@.skip(i as int)) is None,
        },
{
    let ghost suf = s@.skip(i as int);
    if i >= s.len() || s[i] != 0x22 {
        return None;
    }
    proof {
        assert(suf[0] == s@[i as int]);
        assert(suf.skip(1) =~= s@.skip(i + 1));
    }
    // scan for the closing quote of the key
    let mut j: usize = i + 1;
    while j < s.len() && s[j] != 0x22 && 0x20 <= s[j] && s[j] <= 0x7E && s[j] != 0x5C
        invariant
            i + 1 <= j <= s@.len(),
            forall|t: int| i + 1 <= t < j ==> is_key_byte(#[trigger] s@[t]),
        decreases s@.len() - j,
    {
        j = j + 1;
    }
    let ghost keysuf = s@.skip(i + 1);
    proof {
        assert(forall|t: int| 0 <= t < j - i - 1 ==> keysuf[t] == s@[i + 1 + t]);
    }
    if j == s.len() || s[j] != 0x22 {
        proof {
            lemma_key_len_none(keysuf, (j - i - 1) as nat);
        }
        return None;
    }
    let ghost k = (j - i - 1) as nat;
    proof {
        lemma_key_len_some(keysuf, k);
        assert(suf.subrange(1, 1 + k as int) =~= s@.subrange(i + 1, j as int));
        assert(suf.skip(2 + k as int) =~= s@.skip(j + 1));
    }
    // copy the key out
    let mut key: Vec<u8> = Vec::new();
    let mut t: usize = i + 1;
    while t < j
        invariant
            i + 1 <= t <= j <= s@.len(),
            key@ == s@.subrange(i + 1, t as int),
        decreases j - t,
    {
        key.push(s[t]);
        proof {
            assert(key@ =~= s@.subrange(i + 1, t + 1));
        }
        t = t + 1;
    }
    // the colon, then the number
    if j + 1 >= s.len() || s[j + 1] != 0x3A {
        proof {
            if j + 1 < s.len() {
                assert(s@.skip(j + 1)[0] == s@[j + 1]);
            }
        }
        return None;
    }
    proof {
        assert(s@.skip(j + 1)[0] == s@[j + 1]);
        assert(s@.skip(j + 1).skip(1) =~= s@.skip(j + 2));
    }
    match parse_num_at(s, j + 2) {
        None => None,
        Some((v, end)) => Some((Entry { key, value: v }, end)),
    }
}

/// Parses a comma-separated run of entries starting at index `i`.
fn parse_entries_at(s: &Vec<u8>, i: usize) -> (r: Option<(Vec<Entry>, usize)>)
    requires
        i <= s@.len(),
    ensures
        match r {
            Some(p) => {
                &&& parse_entries(s@.skip(i as int)) == Some(
                    (p.0.deep_view(), s@.skip(p.1 as int)),
                )
                &&& i < p.1 <= s@.len()
            },
            None => parse_entries(s@.skip(i as int)) is None,
        },
    decreases s@.len() - i,
{
    match parse_entry_at(s, i) {
        None => None,
        Some((e, j)) => {
            if j < s.len() && s[j] == 0x2C {
                proof {
                    assert(s@.skip(j as int)[0] == s@[j as int]);
                    assert(s@.skip(j as int).skip(1) =~= s@.skip(j + 1));
                }
                match parse_entries_at(s, j + 1) {
                    None => None,
                    Some((mut es, end)) => {
                        let ghost tail = es.deep_view();
                        es.insert(0, e);
                        proof {
                            assert(es.deep_view() =~= seq![e@] + tail);
                        }
                        Some((es, end))
                    },
                }
            } else {
                proof {
                    if j < s.len() {
                        assert(s@.skip(j as int)[0] == s@[j as int]);
                    }
                }
                let mut es: Vec<Entry> = Vec::new();
                es.push(e);
                proof {
                    assert(es.deep_view() =~= seq![e@]);
                }
                Some((es, j))
            }
        },
    }
}

/// Parses a whole document; `None` when the bytes are not exactly one braced
/// entry list.
pub fn parse_document(s: &Vec<u8>) -> (r: Option<Vec<Entry>>)
    ensures
        match r {
            Some(es) => parse_doc(s@) == Some(es.deep_view()),
            None => parse_doc(s@) is None,
        },
{
    if s.len() < 2 || s[0] != 0x7B {
        return None;
    }
    if s[1] == 0x7D {
        if s.len() == 2 {
            let es: Vec<Entry> = Vec::new();
            proof {
                assert(es.deep_view() =~= Seq::<(Seq<u8>, nat)>::empty());
            }
            return Some(es);
        } else {
            return None;
        }
    }
    match parse_entries_at(s, 1) {
        None => None,
        Some((es, j)) => {
            if j < s.len() && j + 1 == s.len() && s[j] == 0x7D {
                proof {
                    assert(s@.skip(j as int).len() == 1);
                    assert(s@.skip(j as int)[0] == s@[j as int]);
                }
                Some(es)
            } else {
                proof {
                    if j < s.len() {
                        assert(s@.skip(j as int)[0] == s@[j as int]);
                    }
                }
                None
            }
        },
    }
}

/// Appends the canonical digits of `n` to `out`.
fn push_digits(out: &mut Vec<u8>, n: u64)
    ensures
        final(out)@ == old(out)@ + digits_of(n as nat),
    decreases n,
{
    if n >= 10 {
        push_digits(out, n / 10);
        out.push(0x30 + (n % 10) as u8);
        proof {
            assert(old(out)@ + digits_of((n / 10) as nat).push((0x30 + n % 10) as u8) =~= old(
                out,
            )@ + digits_of(n as nat));
        }
    } else {
        out.push(0x30 + (n % 10) as u8);
        proof {
            assert(old(out)@ + digits_of(n as nat) =~= old(out)@.push((0x30 + n as nat) as u8));
        }
    }
}

/// Appends the canonical rendering of entries `k..` to `out`.
fn render_entries_from(es: &Vec<Entry>, k: usize, out: &mut Vec<u8>)
    requires
        k <= es@.len(),
    ensures
        final(out)@ == old(out)@ + render_entries(es.deep_view().skip(k as int)),
    decreases es@.len() - k,
{
    let ghost dv = es.deep_view();
    if k == es.len() {
        proof {
            assert(old(out)@ + render_entries(dv.skip(k as int)) =~= old(out)@);
        }
        return ;
    }
    out.push(0x22);
    let keylen = es[k].key.len();
    let mut t: usize = 0;
    while t < keylen
        invariant
            t <= keylen,
            k < es@.len(),
            keylen == es@[k as int].key@.len(),
            dv == es.deep_view(),
            out@ == old(out)@ + seq![0x22u8] + es@[k as int].key@.subrange(0, t as int),
        decreases keylen - t,
    {
        out.push(es[k].key[t]);
        proof {
            assert(old(out)@ + seq![0x22u8] + es@[k as int].key@.subrange(0, t + 1) =~= (old(
                out,
            )@ + seq![0x22u8] + es@[k as int].key@.subrange(0, t as int)).push(
                es@[k as int].key@[t as int],
            ));
        }
        t = t + 1;
    }
    out.push(0x22);
    out.push(0x3A);
    proof {
        assert(es@[k as int].key@.subrange(0, keylen as int) =~= es@[k as int].key@);
    }
    push_digits(out, es[k].value);
    proof {
        assert(out@ =~= old(out)@ + render_entry(dv[k as int]));
    }
    if k + 1 < es.len() {
        out.push(0x2C);
        render_entries_from(es, k + 1, out);
        proof {
            assert(dv.skip(k as int).drop_first() =~= dv.skip(k + 1));
            assert(dv.skip(k as int)[0] == dv[k as int]);
            assert(old(out)@ + render_entry(dv[k as int]) + seq![0x2Cu8] + render_entries(
                dv.skip(k + 1),
            ) =~= old(out)@ + render_entries(dv.skip(k as int)));
        }
    } else {
        proof {
            assert(dv.skip(k as int).len() == 1);
            assert(dv.skip(k as int)[0] == dv[k as int]);
            assert(old(out)@ + render_entry(dv[k as int]) =~= old(out)@ + render_entries(
                dv.skip(k as int),
            ));
        }
    }
}

/// Renders a document canonically: no whitespace, no leading zeros.
pub fn render_document(es: &Vec<Entry>) -> (out: Vec<u8>)
    ensures
        out@ == render_doc(es.deep_view()),
{
    let mut out: Vec<u8> = Vec::new();
    out.push(0x7B);
    render_entries_from(es, 0, &mut out);
    out.push(0x7D);
    proof {
        assert(es.deep_view().skip(0) =~= es.deep_view());
        assert(out@ =~= render_doc(es.deep_view()));
    }
    out
}

/// `digit_run` is at most `k` when the byte at `k` (if any) is not a digit
/// and only digits precede it.
proof fn lemma_digit_run_exact(s: Seq<u8>, k: nat)
    requires
        k <= s.len(),
        forall|t: int| 0 <= t < k ==> is_digit(#[trigger] s[t]),
        k == s.len() || !is_digit(s[k as int]),
    ensures
        digit_run(s) == k,
    decreases k,
{
    if k == 0 {
    } else {
        lemma_digit_run_exact(s.drop_first(), (k - 1) as nat);
    }
}

/// Only digits up to `k` means the run reaches at least `k`.
proof fn lemma_digit_run_at_least(s: Seq<u8>, k: nat)
    requires
        k <= s.len(),
        forall|t: int| 0 <= t < k ==> is_digit(#[trigger] s[t]),
    ensures
        digit_run(s) >= k,
    decreases k,
{
    if k == 0 {
    } else {
        lemma_digit_run_at_least(s.drop_first(), (k - 1) as nat);
    }
}

/// A non-digit at `k` caps the run at `k`.
proof fn lemma_digit_run_at_most(s: Seq<u8>, k: nat)
    requires
        k == s.len() || (k < s.len() && !is_digit(s[k as int])),
    ensures
        digit_run(s) <= k || exists|t: int| 0 <= t < k && !is_digit(#[trigger] s[t]),
    decreases s.len(),
{
    if s.len() > 0 && is_digit(s[0]) && k > 0 {
        lemma_digit_run_at_most(s.drop_first(), (k - 1) as nat);
        if digit_run(s.drop_first()) <= k - 1 {
        } else {
            let t = choose|t: int| 0 <= t < k - 1 && !is_digit(#[trigger] s.drop_first()[t]);
            assert(!is_digit(s[t + 1]));
        }
    }
}

/// The value of `k` digits is below 10 to the `k`.
proof fn lemma_dec_val_bound(ds: Seq<u8>)
    requires
        forall|t: int| 0 <= t < ds.len() ==> is_digit(#[trigger] ds[t]),
    ensures
        dec_val(ds) < pow10(ds.len()),
    decreases ds.len(),
{
    if ds.len() == 0 {
    } else {
        lemma_dec_val_bound(ds.drop_last());
        assert(pow10(ds.len()) == 10 * pow10((ds.len() - 1) as nat));
    }
}

/// `pow10` does not decrease.
proof fn lemma_pow10_increases(a: nat, b: nat)
    requires
        a <= b,
    ensures
        pow10(a) <= pow10(b),
    decreases b,
{
    if a < b {
        lemma_pow10_increases(a, (b - 1) as nat);
        assert(pow10(b) == 10 * pow10((b - 1) as nat));
        assert(pow10((b - 1) as nat) >= 1) by {
            lemma_pow10_positive((b - 1) as nat);
        }
    }
}

/// `pow10` is positive.
proof fn lemma_pow10_positive(k: nat)
    ensures
        pow10(k) >= 1,
    decreases k,
{
    if k > 0 {
        lemma_pow10_positive((k - 1) as nat);
    }
}

/// A run of key bytes closed by a quote at `k` gives `key_len` `Some(k)`.
proof fn lemma_key_len_some(s: Seq<u8>, k: nat)
    requires
        k < s.len(),
        s[k as int] == 0x22,
        forall|t: int| 0 <= t < k ==> is_key_byte(#[trigger] s[t]),
    ensures
        key_len(s) == Some(k),
    decreases k,
{
    if k == 0 {
    } else {
        lemma_key_len_some(s.drop_first(), (k - 1) as nat);
    }
}

/// The canonical digits of `n` are digits, and there is at least one.
proof fn lemma_digits_of_digits(n: nat)
    ensures
        1 <= digits_of(n).len(),
        forall|t: int| 0 <= t < digits_of(n).len() ==> is_digit(#[trigger] digits_of(n)[t]),
    decreases n,
{
    if n >= 10 {
        lemma_digits_of_digits(n / 10);
    }
}

/// A value below 10 to the `k` has at most `k` canonical digits.
proof fn lemma_digits_len_bound(n: nat, k: nat)
    requires
        1 <= k,
        n < pow10(k),
    ensures
        digits_of(n).len() <= k,
    decreases n,
{
    if n < 10 {
    } else {
        if k == 1 {
            assert(pow10(1nat) == 10) by {
                reveal_with_fuel(pow10, 2);
            }
            assert(false);
        }
        assert(pow10(k) == 10 * pow10((k - 1) as nat));
        assert(n / 10 < pow10((k - 1) as nat)) by (nonlinear_arith)
            requires
                n < 10 * pow10((k - 1) as nat),
        ;
        lemma_digits_len_bound(n / 10, (k - 1) as nat);
    }
}

/// Reading the canonical digits of `n` back gives `n`.
proof fn lemma_dec_val_of_digits(n: nat)
    ensures
        dec_val(digits_of(n)) == n,
    decreases n,
{
    if n < 10 {
        let ds = digits_of(n);
        assert(ds.drop_last() =~= Seq::<u8>::empty());
        assert(ds.last() == (0x30 + n) as u8);
        assert(dec_val(ds) == dec_val(ds.drop_last()) * 10 + ((ds.last() - 0x30) as nat));
        assert(dec_val(ds.drop_last()) == 0);
    } else {
        lemma_dec_val_of_digits(n / 10);
        assert(digits_of(n).drop_last() =~= digits_of(n / 10));
        assert(digits_of(n).last() == (0x30 + n % 10) as u8);
        assert(((0x30 + n % 10) as u8) as nat == 0x30 + n % 10);
        assert(dec_val(digits_of(n)) == (n / 10) * 10 + n % 10);
    }
}

/// Parsing a number from canonical digits followed by a non-digit suffix
/// yields the value back, with that suffix remaining.
proof fn lemma_parse_num_of_digits(v: nat, rest: Seq<u8>)
    requires
        v < value_bound(),
        rest.len() == 0 || !is_digit(rest[0]),
    ensures
        parse_num(digits_of(v) + rest) == Some((v, rest)),
{
    let ds = digits_of(v);
    let s = ds + rest;
    lemma_digits_of_digits(v);
    assert(pow10(max_digits()) == value_bound()) by {
        reveal_with_fuel(pow10, 19);
    }
    lemma_digits_len_bound(v, max_digits());
    assert(forall|t: int| 0 <= t < ds.len() ==> is_digit(#[trigger] s[t]));
    if ds.len() < s.len() {
        assert(s[ds.len() as int] == rest[0]);
    }
    lemma_digit_run_exact(s, ds.len());
    assert(s.take(ds.len() as int) =~= ds);
    lemma_dec_val_of_digits(v);
    assert(s.skip(ds.len() as int) =~= rest);
}

/// Parsing an entry from its canonical rendering followed by a non-digit
/// suffix yields the entry back, with that suffix remaining.
proof fn lemma_parse_entry_of_render(e: (Seq<u8>, nat), rest: Seq<u8>)
    requires
        entry_wf(e),
        rest.len() == 0 || !is_digit(rest[0]),
    ensures
        parse_entry(render_entry(e) + rest) == Some((e, rest)),
        4 <= render_entry(e).len(),
{
    let s = render_entry(e) + rest;
    let k = e.0.len() as int;
    lemma_digits_of_digits(e.1);
    assert(s[0] == 0x22);
    let tail1 = seq![0x3Au8] + digits_of(e.1) + rest;
    assert(s.skip(1) =~= e.0 + seq![0x22u8] + tail1);
    lemma_key_len_some(s.skip(1), e.0.len());
    assert(s.subrange(1, 1 + k) =~= e.0);
    assert(s.skip(2 + k) =~= tail1);
    assert(tail1[0] == 0x3A);
    assert(tail1.skip(1) =~= digits_of(e.1) + rest);
    lemma_parse_num_of_digits(e.1, rest);
    assert(e == (e.0, e.1));
}

/// Parsing an entry list from its canonical rendering, up to the closing
/// brace, yields the entries back with only the brace remaining.
proof fn lemma_parse_entries_of_render(es: Seq<(Seq<u8>, nat)>)
    requires
        1 <= es.len(),
        doc_wf(es),
    ensures
        parse_entries(render_entries(es) + seq![0x7Du8]) == Some((es, seq![0x7Du8])),
    decreases es.len(),
{
    let s = render_entries(es) + seq![0x7Du8];
    if es.len() == 1 {
        lemma_parse_entry_of_render(es[0], seq![0x7Du8]);
        assert(parse_entry(s) == Some((es[0], seq![0x7Du8])));
        assert(seq![es[0]] =~= es);
    } else {
        let tail = es.drop_first();
        let rest1 = seq![0x2Cu8] + render_entries(tail) + seq![0x7Du8];
        assert(s =~= render_entry(es[0]) + rest1);
        lemma_parse_entry_of_render(es[0], rest1);
        assert(parse_entry(s) == Some((es[0], rest1)));
        assert(rest1[0] == 0x2C);
        assert(rest1.len() < s.len());
        assert(doc_wf(tail)) by {
            assert(forall|i: int|
                0 <= i < tail.len() ==> #[trigger] tail[i] == es[i + 1] && entry_wf(es[i + 1]));
        }
        lemma_parse_entries_of_render(tail);
        assert(rest1.skip(1) =~= render_entries(tail) + seq![0x7Du8]);
        assert(seq![es[0]] + tail =~= es);
    }
}

/// Round trip: parsing the canonical rendering of any well-formed document
/// yields that document back, entry for entry and in order. Canonical
/// re-rendering is therefore idempotent: rendering, re-parsing and rendering
/// again changes nothing.
pub proof fn lemma_parse_render_roundtrip(es: Seq<(Seq<u8>, nat)>)
    requires
        doc_wf(es),
    ensures
        parse_doc(render_doc(es)) == Some(es),
{
    let s = render_doc(es);
    if es.len() == 0 {
        assert(s =~= seq![0x7Bu8, 0x7Du8]);
        assert(parse_doc(s) == Some(Seq::<(Seq<u8>, nat)>::empty()));
        assert(Seq::<(Seq<u8>, nat)>::empty() =~= es);
    } else {
        let body = render_entries(es);
        lemma_parse_entry_of_render(es[0], seq![]);
        assert(render_entry(es[0])[0] == 0x22);
        if es.len() == 1 {
            assert(body[0] == 0x22);
        } else {
            assert(body[0] == render_entry(es[0])[0]);
        }
        assert(s[0] == 0x7B);
        assert(s[1] == body[0]);
        assert(s[1] != 0x7D);
        assert(s.skip(1) =~= body + seq![0x7Du8]);
        lemma_parse_entries_of_render(es);
        assert(parse_entries(s.skip(1)) == Some((es, seq![0x7Du8])));
    }
}

/// What `key_len` found really is a quoted run of key bytes.
proof fn lemma_key_len_prefix(s: Seq<u8>, k: nat)
    requires
        key_len(s) == Some(k),
    ensures
        k < s.len(),
        s[k as int] == 0x22,
        forall|t: int| 0 <= t < k ==> is_key_byte(#[trigger] s[t]),
    decreases s.len(),
{
    if s.len() == 0 {
    } else if s[0] == 0x22 {
    } else if is_key_byte(s[0]) {
        lemma_key_len_prefix(s.drop_first(), (k - 1) as nat);
        assert(forall|t: int|
            1 <= t < k ==> #[trigger] s[t] == s.drop_first()[t - 1] && is_key_byte(
                s.drop_first()[t - 1],
            ));
    }
}

/// The maximal digit run really is made of digits, and fits the sequence.
proof fn lemma_digit_run_digits(s: Seq<u8>)
    ensures
        digit_run(s) <= s.len(),
        forall|t: int| 0 <= t < digit_run(s) ==> is_digit(#[trigger] s[t]),
    decreases s.len(),
{
    if s.len() > 0 && is_digit(s[0]) {
        lemma_digit_run_digits(s.drop_first());
        assert(forall|t: int|
            1 <= t < digit_run(s) ==> #[trigger] s[t] == s.drop_first()[t - 1] && is_digit(
                s.drop_first()[t - 1],
            ));
    }
}

/// A parsed number is below [`value_bound`] and leaves a suffix.
proof fn lemma_parse_num_wf(s: Seq<u8>, v: nat, r: Seq<u8>)
    requires
        parse_num(s) == Some((v, r)),
    ensures
        v < value_bound(),
        r == s.skip(digit_run(s) as int),
        1 <= digit_run(s) <= max_digits(),
    decreases s.len(),
{
    let k = digit_run(s);
    lemma_digit_run_digits(s);
    assert(forall|t: int| 0 <= t < k ==> is_digit(#[trigger] s.take(k as int)[t]));
    lemma_dec_val_bound(s.take(k as int));
    lemma_pow10_increases(k, max_digits());
    assert(pow10(max_digits()) == value_bound()) by {
        reveal_with_fuel(pow10, 19);
    }
}

/// A parsed entry is well formed.
proof fn lemma_parse_entry_wf(s: Seq<u8>, e: (Seq<u8>, nat), r: Seq<u8>)
    requires
        parse_entry(s) == Some((e, r)),
    ensures
        entry_wf(e),
{
    let k = key_len(s.skip(1)).unwrap();
    lemma_key_len_prefix(s.skip(1), k);
    assert(forall|t: int|
        0 <= t < k ==> #[trigger] e.0[t] == s.skip(1)[t] && is_key_byte(s.skip(1)[t]));
    let rest = s.skip(2 + k as int);
    let pn = parse_num(rest.skip(1)).unwrap();
    lemma_parse_num_wf(rest.skip(1), pn.0, pn.1);
}

/// A parsed entry list is well formed.
proof fn lemma_parse_entries_wf(s: Seq<u8>, es: Seq<(Seq<u8>, nat)>, r: Seq<u8>)
    requires
        parse_entries(s) == Some((es, r)),
    ensures
        doc_wf(es),
    decreases s.len(),
{
    let (e, rest) = parse_entry(s).unwrap();
    lemma_parse_entry_wf(s, e, rest);
    if rest.len() > 0 && rest[0] == 0x2C && rest.len() < s.len() {
        let (tail, r2) = parse_entries(rest.skip(1)).unwrap();
        lemma_parse_entries_wf(rest.skip(1), tail, r2);
        assert(forall|i: int|
            1 <= i < es.len() ==> #[trigger] es[i] == tail[i - 1] && entry_wf(tail[i - 1]));
        assert(es[0] == e);
    } else {
        assert(es[0] == e);
    }
}

/// A parsed document is well formed: exactly what rendering needs.
pub proof fn lemma_parse_doc_wf(s: Seq<u8>, es: Seq<(Seq<u8>, nat)>)
    requires
        parse_doc(s) == Some(es),
    ensures
        doc_wf(es),
{
    if s.len() >= 2 && s[0] == 0x7B && s[1] != 0x7D {
        let (es2, r) = parse_entries(s.skip(1)).unwrap();
        lemma_parse_entries_wf(s.skip(1), es2, r);
    }
}

/// A parsed number was read from ASCII bytes: if what it leaves is ASCII,
/// the whole input was.
proof fn lemma_parse_num_ascii(s: Seq<u8>, v: nat, r: Seq<u8>)
    requires
        parse_num(s) == Some((v, r)),
        forall|t: int| 0 <= t < r.len() ==> #[trigger] r[t] < 0x80,
    ensures
        forall|t: int| 0 <= t < s.len() ==> #[trigger] s[t] < 0x80,
{
    let k = digit_run(s);
    lemma_digit_run_digits(s);
    assert forall|t: int| 0 <= t < s.len() implies #[trigger] s[t] < 0x80 by {
        if t >= k {
            assert(s[t] == s.skip(k as int)[t - k]);
        }
    }
}

/// A parsed entry was read from ASCII bytes.
proof fn lemma_parse_entry_ascii(s: Seq<u8>, e: (Seq<u8>, nat), r: Seq<u8>)
    requires
        parse_entry(s) == Some((e, r)),
        forall|t: int| 0 <= t < r.len() ==> #[trigger] r[t] < 0x80,
    ensures
        forall|t: int| 0 <= t < s.len() ==> #[trigger] s[t] < 0x80,
{
    let k = key_len(s.skip(1)).unwrap();
    lemma_key_len_prefix(s.skip(1), k);
    let rest = s.skip(2 + k as int);
    let pn = parse_num(rest.skip(1)).unwrap();
    assert(forall|t: int|
        0 <= t < rest.skip(1).len() ==> #[trigger] rest.skip(1)[t] == rest[t + 1]);
    lemma_parse_num_ascii(rest.skip(1), pn.0, pn.1);
    assert forall|t: int| 0 <= t < s.len() implies #[trigger] s[t] < 0x80 by {
        if t == 0 {
        } else if t < 1 + k {
            assert(s[t] == s.skip(1)[t - 1]);
            assert(is_key_byte(s.skip(1)[t - 1]));
        } else if t == 1 + k {
            assert(s[t] == s.skip(1)[t - 1]);
        } else if t == 2 + k {
            assert(s[t] == rest[0]);
        } else {
            assert(s[t] == rest.skip(1)[t - (3 + k)]);
        }
    }
}

/// A parsed entry list was read from ASCII bytes.
proof fn lemma_parse_entries_ascii(s: Seq<u8>, es: Seq<(Seq<u8>, nat)>, r: Seq<u8>)
    requires
        parse_entries(s) == Some((es, r)),
        forall|t: int| 0 <= t < r.len() ==> #[trigger] r[t] < 0x80,
    ensures
        forall|t: int| 0 <= t < s.len() ==> #[trigger] s[t] < 0x80,
    decreases s.len(),
{
    let (e, rest) = parse_entry(s).unwrap();
    if rest.len() > 0 && rest[0] == 0x2C && rest.len() < s.len() {
        let (tail, r2) = parse_entries(rest.skip(1)).unwrap();
        lemma_parse_entries_ascii(rest.skip(1), tail, r2);
        assert forall|t: int| 0 <= t < rest.len() implies #[trigger] rest[t] < 0x80 by {
            if t >= 1 {
                assert(rest[t] == rest.skip(1)[t - 1]);
            }
        }
        lemma_parse_entry_ascii(s, e, rest);
    } else {
        lemma_parse_entry_ascii(s, e, rest);
    }
}

/// Only ASCII bytes parse as a document: the grammar's alphabet is printable
/// ASCII, so a successful parse certifies the payload was ASCII throughout.
pub proof fn lemma_parse_doc_ascii(s: Seq<u8>, es: Seq<(Seq<u8>, nat)>)
    requires
        parse_doc(s) == Some(es),
    ensures
        forall|t: int| 0 <= t < s.len() ==> #[trigger] s[t] < 0x80,
{
    if s.len() == 2 && s[0] == 0x7B && s[1] == 0x7D {
    } else {
        let (es2, r) = parse_entries(s.skip(1)).unwrap();
        assert(r =~= seq![0x7Du8]);
        lemma_parse_entries_ascii(s.skip(1), es2, r);
        assert forall|t: int| 0 <= t < s.len() implies #[trigger] s[t] < 0x80 by {
            if t >= 1 {
                assert(s[t] == s.skip(1)[t - 1]);
            }
        }
    }
}

/// The canonical rendering of a well-formed document is ASCII throughout.
pub proof fn lemma_render_doc_ascii(es: Seq<(Seq<u8>, nat)>)
    requires
        doc_wf(es),
    ensures
        forall|t: int| 0 <= t < render_doc(es).len() ==> #[trigger] render_doc(es)[t] < 0x80,
{
    lemma_render_entries_ascii(es);
    let body = render_entries(es);
    let s = render_doc(es);
    assert forall|t: int| 0 <= t < s.len() implies #[trigger] s[t] < 0x80 by {
        if 1 <= t < 1 + body.len() {
            assert(s[t] == body[t - 1]);
        }
    }
}

/// The canonical rendering of well-formed entries is ASCII throughout.
proof fn lemma_render_entries_ascii(es: Seq<(Seq<u8>, nat)>)
    requires
        doc_wf(es),
    ensures
        forall|t: int|
            0 <= t < render_entries(es).len() ==> #[trigger] render_entries(es)[t] < 0x80,
    decreases es.len(),
{
    if es.len() == 0 {
    } else if es.len() == 1 {
        lemma_render_entry_ascii(es[0]);
    } else {
        lemma_render_entry_ascii(es[0]);
        let tail = es.drop_first();
        assert(doc_wf(tail)) by {
            assert(forall|i: int|
                0 <= i < tail.len() ==> #[trigger] tail[i] == es[i + 1] && entry_wf(es[i + 1]));
        }
        lemma_render_entries_ascii(tail);
        let a = render_entry(es[0]);
        let s = render_entries(es);
        assert forall|t: int| 0 <= t < s.len() implies #[trigger] s[t] < 0x80 by {
            if t < a.len() {
                assert(s[t] == a[t]);
            } else if t == a.len() {
                assert(s[t] == 0x2C);
            } else {
                assert(s[t] == render_entries(tail)[t - a.len() - 1]);
            }
        }
    }
}

/// The canonical rendering of one well-formed entry is ASCII throughout.
proof fn lemma_render_entry_ascii(e: (Seq<u8>, nat))
    requires
        entry_wf(e),
    ensures
        forall|t: int| 0 <= t < render_entry(e).len() ==> #[trigger] render_entry(e)[t] < 0x80,
{
    lemma_digits_of_digits(e.1);
    let s = render_entry(e);
    let k = e.0.len() as int;
    assert forall|t: int| 0 <= t < s.len() implies #[trigger] s[t] < 0x80 by {
        if t == 0 {
        } else if t < 1 + k {
            assert(s[t] == e.0[t - 1]);
        } else if t == 1 + k {
            assert(s[t] == 0x22);
        } else if t == 2 + k {
            assert(s[t] == 0x3A);
        } else {
            assert(s[t] == digits_of(e.1)[t - (3 + k)]);
            assert(is_digit(digits_of(e.1)[t - (3 + k)]));
        }
    }
}

/// A run of key bytes ended by the sequence's end, or by a byte that is
/// neither a key byte nor a quote, gives `key_len` `None`.
proof fn lemma_key_len_none(s: Seq<u8>, k: nat)
    requires
        k <= s.len(),
        forall|t: int| 0 <= t < k ==> is_key_byte(#[trigger] s[t]),
        k == s.len() || (!is_key_byte(s[k as int]) && s[k as int] != 0x22),
    ensures
        key_len(s) is None,
    decreases k,
{
    if k == 0 {
    } else {
        lemma_key_len_none(s.drop_first(), (k - 1) as nat);
    }
}

} // verus!
