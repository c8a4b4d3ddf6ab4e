//! The file name stem under which a rendered invoice is written:
//! `{from}_{to}_invoice{num}{_vN}_{YYMMDD}`.

use vstd::prelude::*;
use crate::date::DateView;
use crate::invoice::{Invoice, InvoiceView};
use crate::text::{
    all_digits, digit_char, digit_value, digits_value, lemma_decimal_digits,
    ascii_lower, ascii_lower_seq, chars_of, decimal, is_white_space, is_whitespace, push_ascii_lowercase,
    push_char, push_decimal, push_str, trim_start,
};

verus! {

/// Whether `char::is_alphanumeric` holds of `c` (Unicode's Alphabetic or
/// Numeric property).
pub uninterp spec fn is_alphanumeric_char(c: char) -> bool;

/// Whether `c` is alphabetic or numeric.
///
/// Trusted: `char::is_alphanumeric`, a function of the character alone over
/// Unicode's tables; its result is named by `is_alphanumeric_char`.
#[verifier::external_body]
pub(crate) fn is_alphanumeric(c: char) -> (r: bool)
    ensures
        r == is_alphanumeric_char(c),
{
    c.is_alphanumeric()
}

/// The leading run of non-whitespace characters of `t`.
pub open spec fn leading_word(t: Seq<char>) -> Seq<char>
    decreases t.len(),
{
    if t.len() == 0 || is_white_space(t[0]) {
        Seq::empty()
    } else {
        seq![t[0]] + leading_word(t.drop_first())
    }
}

/// The first whitespace-separated word of `s`, as
/// `s.split_whitespace().next()` gives it.
pub open spec fn first_word(s: Seq<char>) -> Option<Seq<char>> {
    let t = trim_start(s);
    if t.len() == 0 {
        None
    } else {
        Some(leading_word(t))
    }
}

/// `w` without its leading characters that are not alphanumeric.
pub open spec fn strip_start_non_alnum(w: Seq<char>) -> Seq<char>
    decreases w.len(),
{
    if w.len() > 0 && !is_alphanumeric_char(w[0]) {
        strip_start_non_alnum(w.drop_first())
    } else {
        w
    }
}

/// `w` without its trailing characters that are not alphanumeric.
pub open spec fn strip_end_non_alnum(w: Seq<char>) -> Seq<char>
    decreases w.len(),
{
    if w.len() > 0 && !is_alphanumeric_char(w.last()) {
        strip_end_non_alnum(w.drop_last())
    } else {
        w
    }
}

/// The key a name is filed under: its first word, without surrounding
/// punctuation, with ASCII letters in lower case; empty for a blank name.
pub open spec fn name_key(s: Seq<char>) -> Seq<char> {
    match first_word(s) {
        None => Seq::empty(),
        Some(w) => ascii_lower_seq(strip_end_non_alnum(strip_start_non_alnum(w))),
    }
}

proof fn lemma_trim_start_index(s: Seq<char>, i: int)
    requires
        0 <= i <= s.len(),
        forall|k: int| 0 <= k < i ==> is_white_space(#[trigger] s[k]),
        i < s.len() ==> !is_white_space(s[i]),
    ensures
        trim_start(s) == s.skip(i),
    decreases i,
{
    if i > 0 {
        assert(s.drop_first().skip(i - 1) == s.skip(i));
        lemma_trim_start_index(s.drop_first(), i - 1);
    } else {
        assert(s.skip(0) == s);
    }
}

proof fn lemma_leading_word(t: Seq<char>, k: int)
    requires
        0 <= k <= t.len(),
        forall|m: int| 0 <= m < k ==> !is_white_space(#[trigger] t[m]),
        k < t.len() ==> is_white_space(t[k]),
    ensures
        leading_word(t) == t.take(k),
    decreases k,
{
    if k > 0 {
        lemma_leading_word(t.drop_first(), k - 1);
        assert(seq![t[0]] + t.drop_first().take(k - 1) == t.take(k));
    } else {
        assert(t.take(0) == Seq::<char>::empty());
    }
}

proof fn lemma_strip_start(w: Seq<char>, a: int)
    requires
        0 <= a <= w.len(),
        forall|m: int| 0 <= m < a ==> !is_alphanumeric_char(#[trigger] w[m]),
        a < w.len() ==> is_alphanumeric_char(w[a]),
    ensures
        strip_start_non_alnum(w) == w.skip(a),
    decreases a,
{
    if a > 0 {
        assert(w.drop_first().skip(a - 1) == w.skip(a));
        lemma_strip_start(w.drop_first(), a - 1);
    } else {
        assert(w.skip(0) == w);
    }
}

proof fn lemma_strip_end(w: Seq<char>, b: int)
    requires
        0 <= b <= w.len(),
        forall|m: int| b <= m < w.len() ==> !is_alphanumeric_char(#[trigger] w[m]),
        b > 0 ==> is_alphanumeric_char(w[b - 1]),
    ensures
        strip_end_non_alnum(w) == w.take(b),
    decreases w.len() - b,
{
    if b < w.len() {
        assert(w.drop_last().take(b) == w.take(b));
        lemma_strip_end(w.drop_last(), b);
    } else {
        assert(w.take(b) == w);
    }
}

/// The key a name is filed under (see `name_key`).
pub fn first_word_of(s: &str) -> (r: String)
    ensures
        r@ == name_key(s@),
{
    let v = chars_of(s);
    let n = v.len();
    let mut i: usize = 0;
    while i < n && is_whitespace(v[i])
        invariant
            0 <= i <= n == v@.len(),
            forall|k: int| 0 <= k < i ==> is_white_space(#[trigger] v@[k]),
        decreases n - i,
    {
        i += 1;
    }
    proof {
        lemma_trim_start_index(v@, i as int);
    }
    let mut out = String::new();
    if i == n {
        assert(out@ == name_key(s@));
        return out;
    }
    let mut j = i;
    while j < n && !is_whitespace(v[j])
        invariant
            i <= j <= n == v@.len(),
            forall|k: int| i <= k < j ==> !is_white_space(#[trigger] v@[k]),
        decreases n - j,
    {
        j += 1;
    }
    let ghost t = v@.skip(i as int);
    let ghost w = v@.subrange(i as int, j as int);
    proof {
        assert forall|m: int| 0 <= m < j - i implies !is_white_space(#[trigger] t[m]) by {
            assert(t[m] == v@[m + i]);
        }
        if j < n {
            assert(t[j - i] == v@[j as int]);
        }
        lemma_leading_word(t, (j - i) as int);
        assert(t.take((j - i) as int) == w);
    }
    let mut a = i;
    while a < j && !is_alphanumeric(v[a])
        invariant
            i <= a <= j <= n == v@.len(),
            forall|k: int| i <= k < a ==> !is_alphanumeric_char(#[trigger] v@[k]),
        decreases j - a,
    {
        a += 1;
    }
    let mut b = j;
    while b > a && !is_alphanumeric(v[b - 1])
        invariant
            i <= a <= b <= j <= n == v@.len(),
            forall|k: int| b <= k < j ==> !is_alphanumeric_char(#[trigger] v@[k]),
        decreases b,
    {
        b -= 1;
    }
    proof {
        let aa = (a - i) as int;
        assert forall|m: int| 0 <= m < aa implies !is_alphanumeric_char(#[trigger] w[m]) by {
            assert(w[m] == v@[m + i]);
        }
        if aa < w.len() {
            assert(w[aa] == v@[a as int]);
        }
        lemma_strip_start(w, aa);
        let w2 = w.skip(aa);
        let bb = (b - a) as int;
        assert forall|m: int| bb <= m < w2.len() implies !is_alphanumeric_char(
            #[trigger] w2[m],
        ) by {
            assert(w2[m] == v@[m + a]);
        }
        if bb > 0 {
            assert(w2[bb - 1] == v@[b - 1]);
        }
        lemma_strip_end(w2, bb);
        assert(w2.take(bb) == v@.subrange(a as int, b as int));
    }
    push_ascii_lowercase(&mut out, &v, a, b);
    assert(out@ == name_key(s@));
    out
}

/// `{:02}` of a number: at least two characters, zero-padded after any sign.
pub open spec fn two_digits(n: int) -> Seq<char> {
    if n < 0 {
        seq!['-'] + decimal((-n) as nat)
    } else if n < 10 {
        seq!['0'] + decimal(n as nat)
    } else {
        decimal(n as nat)
    }
}

/// Rust's `%` on integers: the remainder takes the sign of the dividend.
pub open spec fn rem_toward_zero(a: int, b: int) -> int {
    if a >= 0 {
        a % b
    } else {
        -((-a) % b)
    }
}

/// The six-digit date of a file name: two-digit year, month and day.
pub open spec fn short_date(d: DateView) -> Seq<char> {
    two_digits(rem_toward_zero(d.year as int, 100)) + two_digits(d.month as int) + two_digits(
        d.day as int,
    )
}

/// The version suffix: `_vN` from version 2 on, nothing before.
pub open spec fn version_suffix(ver: u32) -> Seq<char> {
    if ver > 1 {
        "_v"@ + decimal(ver as nat)
    } else {
        Seq::empty()
    }
}

/// The file name stem of an invoice.
pub open spec fn stem_of(inv: InvoiceView) -> Seq<char> {
    name_key(inv.from) + seq!['_'] + name_key(inv.to) + "_invoice"@ + decimal(inv.num as nat)
        + version_suffix(inv.ver) + seq!['_'] + short_date(inv.date)
}

/// Appends `two_digits(n)`.
fn push_two_digits(out: &mut String, n: i64)
    requires
        n > i64::MIN,
    ensures
        final(out)@ == old(out)@ + two_digits(n as int),
{
    if n < 0 {
        push_char(out, '-');
        push_decimal(out, (0 - n) as u64);
        assert(old(out)@ + two_digits(n as int) == old(out)@.push('-') + decimal((-n) as nat));
    } else if n < 10 {
        push_char(out, '0');
        push_decimal(out, n as u64);
        assert(old(out)@ + two_digits(n as int) == old(out)@.push('0') + decimal(n as nat));
    } else {
        push_decimal(out, n as u64);
    }
}

/// The file name stem under which an invoice is written.
pub fn output_stem(invoice: &Invoice) -> (r: String)
    ensures
        r@ == stem_of(invoice@),
{
    let from = first_word_of(invoice.from().as_str());
    let to = first_word_of(invoice.to().as_str());
    let date = invoice.date();
    let year = date.year() as i64;
    let short_year: i64 = if year >= 0 {
        year % 100
    } else {
        0 - ((0 - year) % 100)
    };
    let mut out = String::new();
    push_str(&mut out, from.as_str());
    push_char(&mut out, '_');
    push_str(&mut out, to.as_str());
    push_str(&mut out, "_invoice");
    push_decimal(&mut out, *invoice.num() as u64);
    let ver = *invoice.ver();
    if ver > 1 {
        push_str(&mut out, "_v");
        push_decimal(&mut out, ver as u64);
    }
    push_char(&mut out, '_');
    push_two_digits(&mut out, short_year);
    push_two_digits(&mut out, date.month() as i64);
    push_two_digits(&mut out, date.day() as i64);
    assert(out@ =~= stem_of(invoice@));
    out
}

// ---------------------------------------------------------------------------
// Laws
// ---------------------------------------------------------------------------

/// Whether `s` holds no whitespace.
pub open spec fn no_white_space(s: Seq<char>) -> bool {
    forall|i: int| 0 <= i < s.len() ==> !is_white_space(#[trigger] s[i])
}

proof fn lemma_leading_word_no_white(t: Seq<char>)
    ensures
        no_white_space(leading_word(t)),
    decreases t.len(),
{
    if t.len() > 0 && !is_white_space(t[0]) {
        lemma_leading_word_no_white(t.drop_first());
        let w = leading_word(t.drop_first());
        assert forall|i: int| 0 <= i < (seq![t[0]] + w).len() implies !is_white_space(
            #[trigger] (seq![t[0]] + w)[i],
        ) by {
            if i > 0 {
                assert((seq![t[0]] + w)[i] == w[i - 1]);
            }
        }
    }
}

proof fn lemma_strip_start_no_white(w: Seq<char>)
    requires
        no_white_space(w),
    ensures
        no_white_space(strip_start_non_alnum(w)),
    decreases w.len(),
{
    if w.len() > 0 && !is_alphanumeric_char(w[0]) {
        assert forall|i: int| 0 <= i < w.drop_first().len() implies !is_white_space(
            #[trigger] w.drop_first()[i],
        ) by {
            assert(w.drop_first()[i] == w[i + 1]);
        }
        lemma_strip_start_no_white(w.drop_first());
    }
}

proof fn lemma_strip_end_no_white(w: Seq<char>)
    requires
        no_white_space(w),
    ensures
        no_white_space(strip_end_non_alnum(w)),
    decreases w.len(),
{
    if w.len() > 0 && !is_alphanumeric_char(w.last()) {
        assert forall|i: int| 0 <= i < w.drop_last().len() implies !is_white_space(
            #[trigger] w.drop_last()[i],
        ) by {
            assert(w.drop_last()[i] == w[i]);
        }
        lemma_strip_end_no_white(w.drop_last());
    }
}

/// The key a name is filed under is a single word: it holds no whitespace,
/// so it never breaks a file name stem apart.
pub proof fn lemma_name_key_is_one_word(s: Seq<char>)
    ensures
        no_white_space(name_key(s)),
{
    if let Some(w) = first_word(s) {
        lemma_leading_word_no_white(trim_start(s));
        lemma_strip_start_no_white(w);
        lemma_strip_end_no_white(strip_start_non_alnum(w));
        let v = strip_end_non_alnum(strip_start_non_alnum(w));
        assert forall|i: int| 0 <= i < ascii_lower_seq(v).len() implies !is_white_space(
            #[trigger] ascii_lower_seq(v)[i],
        ) by {
            assert(ascii_lower_seq(v)[i] == ascii_lower(v[i]));
            assert(!is_white_space(v[i]));
        }
    }
}

/// Taking the key of a key changes nothing, provided the key begins and
/// ends with characters that `char::is_alphanumeric` accepts (those of the
/// name it came from, save that ASCII capitals are now lower case).
pub proof fn lemma_name_key_idempotent(s: Seq<char>)
    requires
        name_key(s).len() == 0 || (is_alphanumeric_char(name_key(s)[0]) && is_alphanumeric_char(
            name_key(s).last(),
        )),
    ensures
        name_key(name_key(s)) == name_key(s),
{
    let k = name_key(s);
    if k.len() == 0 {
        assert(trim_start(k) == k);
    } else {
        lemma_name_key_is_one_word(s);
        assert(!is_white_space(k[0]));
        assert(trim_start(k) == k);
        lemma_leading_word(k, k.len() as int);
        assert(k.take(k.len() as int) == k);
        assert(strip_start_non_alnum(k) == k);
        assert(k.last() == k[k.len() - 1]);
        assert(strip_end_non_alnum(k) == k);
        let w = first_word(s)->0;
        let v = strip_end_non_alnum(strip_start_non_alnum(w));
        assert(k == ascii_lower_seq(v));
        assert(ascii_lower_seq(k) =~= k) by {
            assert forall|i: int| 0 <= i < k.len() implies #[trigger] ascii_lower_seq(k)[i] == k[i] by {
                assert(k[i] == ascii_lower(v[i]));
            }
        }
    }
}

/// Whether `d` is how a number `n` is written with plain digits: ASCII
/// digits only, no separators, no sign and no leading zero.
pub open spec fn plain_digits_of(d: Seq<char>, n: nat) -> bool {
    &&& d.len() > 0
    &&& all_digits(d)
    &&& digits_value(d) == n
    &&& (d.len() == 1 || d[0] != '0')
}

proof fn lemma_decimal_leading(n: nat)
    ensures
        n >= 10 ==> decimal(n)[0] == decimal(n / 10)[0],
        n >= 1 ==> decimal(n)[0] != '0',
    decreases n,
{
    lemma_decimal_digits(n);
    if n >= 10 {
        lemma_decimal_leading(n / 10);
        lemma_decimal_digits(n / 10);
        assert(decimal(n) == decimal(n / 10).push(digit_char(n % 10)));
    } else {
        assert(decimal(n) == seq![digit_char(n)]);
        assert(digit_value(digit_char(n)) == n);
    }
}

/// The decimal form of a number is its plain digits.
pub proof fn lemma_decimal_is_plain(n: nat)
    ensures
        plain_digits_of(decimal(n), n),
{
    lemma_decimal_digits(n);
    lemma_decimal_leading(n);
    if decimal(n).len() > 1 {
        assert(n >= 10) by {
            if n < 10 {
                assert(decimal(n) == seq![digit_char(n)]);
            }
        }
    }
}

/// The stem is the sender's key, `_`, the recipient's key, `_invoice`, the
/// invoice number in plain digits (no thousands separators), for versions
/// from 2 on `_v` and the version in plain digits, `_`, and the date: no
/// other characters and no other order.
pub proof fn lemma_stem_layout(inv: InvoiceView)
    ensures
        exists|num: Seq<char>, ver: Seq<char>|
            #![trigger plain_digits_of(num, inv.num as nat), plain_digits_of(ver, inv.ver as nat)]
            plain_digits_of(num, inv.num as nat) && plain_digits_of(ver, inv.ver as nat)
                && stem_of(inv) == name_key(inv.from) + seq!['_'] + name_key(inv.to)
                + "_invoice"@ + num + (if inv.ver > 1 {
                "_v"@ + ver
            } else {
                Seq::<char>::empty()
            }) + seq!['_'] + short_date(inv.date),
{
    lemma_decimal_is_plain(inv.num as nat);
    lemma_decimal_is_plain(inv.ver as nat);
    let num = decimal(inv.num as nat);
    let ver = decimal(inv.ver as nat);
    assert(plain_digits_of(num, inv.num as nat) && plain_digits_of(ver, inv.ver as nat));
}

} // verus!
