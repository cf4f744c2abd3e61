//! Names of generation directories.
//!
//! A generation directory is named after the second it was created in and a
//! short random suffix, and carries a tag that tells it apart from anything
//! else in the root directory. Names are ordered character by character, so
//! that the order of names is the order of creation times.

use vstd::prelude::*;
use vstd::std_specs::iter::IteratorSpec;

verus! {

/// Number of random characters in a generation name.
pub const SUFFIX_LENGTH: usize = 7;

/// Least number of digits of the timestamp in a generation name.
pub const TIMESTAMP_WIDTH: usize = 10;

/// `String::push` of the standard library: the contract, believed and not
/// proved, claims that it appends the character to the string and leaves what
/// the string held before as it was.
pub assume_specification[ String::push ](s: &mut String, ch: char)
    ensures
        final(s)@ == old(s)@.push(ch),
;

/// An ASCII letter or digit.
pub open spec fn is_alphanumeric(c: char) -> bool {
    ||| '0' <= c <= '9'
    ||| 'A' <= c <= 'Z'
    ||| 'a' <= c <= 'z'
}

/// The random part of a generation name: seven ASCII letters or digits.
pub open spec fn is_suffix(s: Seq<char>) -> bool {
    &&& s.len() == SUFFIX_LENGTH
    &&& forall|i: int| 0 <= i < s.len() ==> is_alphanumeric(#[trigger] s[i])
}

/// The decimal digit `d`, for `d` below ten.
pub open spec fn digit(d: nat) -> char {
    (('0' as nat) + d) as char
}

/// The decimal digits of `n`, most significant first, with zeros added on the
/// left until there are at least `width` of them.
pub open spec fn padded_decimal(n: nat, width: nat) -> Seq<char>
    decreases n, width,
{
    if n >= 10 || width > 1 {
        let shorter = if width > 0 {
            (width - 1) as nat
        } else {
            0
        };
        padded_decimal(n / 10, shorter).push(digit(n % 10))
    } else {
        seq![digit(n)]
    }
}

/// The tag that ends every generation name.
pub open spec fn tag() -> Seq<char> {
    seq!['.', 'r']
}

/// The name of the generation created at `secs` seconds after the epoch with
/// the random part `suffix`.
pub open spec fn generation_name_of(secs: nat, suffix: Seq<char>) -> Seq<char> {
    padded_decimal(secs, TIMESTAMP_WIDTH as nat) + seq!['-'] + suffix + tag()
}

/// A name carries the tag when it ends with it and something stands before it.
pub open spec fn carries_tag(name: Seq<char>) -> bool {
    &&& name.len() >= 3
    &&& name[name.len() - 2] == '.'
    &&& name[name.len() - 1] == 'r'
}

/// Lexicographic order on names, character by character: `a` comes strictly
/// before `b`.
pub open spec fn lex_lt(a: Seq<char>, b: Seq<char>) -> bool
    decreases a.len(),
{
    if b.len() == 0 {
        false
    } else if a.len() == 0 {
        true
    } else if a[0] != b[0] {
        a[0] < b[0]
    } else {
        lex_lt(a.drop_first(), b.drop_first())
    }
}

/// Whether `a` sorts strictly before `b`.
pub fn name_lt(a: &str, b: &str) -> (less: bool)
    ensures
        less == lex_lt(a@, b@),
{
    let bound = a.unicode_len();
    let mut seen: usize = 0;
    let mut left = a.chars();
    let mut right = b.chars();
    loop
        invariant
            lex_lt(a@, b@) == lex_lt(left.remaining(), right.remaining()),
            seen + left.remaining().len() == bound,
        decreases bound - seen,
    {
        broadcast use vstd::string::group_string_axioms;

        let y = right.next();
        let x = left.next();
        match (x, y) {
            (_, None) => {
                return false;
            },
            (None, Some(_)) => {
                return true;
            },
            (Some(p), Some(q)) => {
                if p != q {
                    return p < q;
                }
                seen += 1;
            },
        }
    }
}

/// Whether two names are the same.
pub fn same_name(a: &str, b: &str) -> (same: bool)
    ensures
        same == (a@ == b@),
{
    proof {
        lemma_lex_lt_connected(a@, b@);
        lemma_lex_lt_irreflexive(a@);
    }
    !name_lt(a, b) && !name_lt(b, a)
}

/// Whether a directory entry's name marks it as a generation directory.
pub fn has_generation_tag(name: &str) -> (tagged: bool)
    ensures
        tagged == carries_tag(name@),
{
    let n = name.unicode_len();
    n >= 3 && name.get_char(n - 2) == '.' && name.get_char(n - 1) == 'r'
}

/// Appends the decimal digits of `n`, padded with zeros to `width` digits.
fn push_padded_decimal(out: &mut String, n: u64, width: usize)
    ensures
        final(out)@ == old(out)@ + padded_decimal(n as nat, width as nat),
    decreases n, width,
{
    let low: u8 = (n % 10) as u8;
    let last: char = (48u8 + low) as char;
    assert(last == digit((n % 10) as nat));
    if n >= 10 || width > 1 {
        let shorter: usize = if width > 0 { width - 1 } else { 0 };
        push_padded_decimal(out, n / 10, shorter);
        out.push(last);
        assert(out@ == old(out)@ + padded_decimal((n / 10) as nat, shorter as nat).push(last));
    } else {
        out.push(last);
        assert(out@ == old(out)@ + seq![last]);
    }
}

/// The name of the generation created at `secs` seconds after the epoch with
/// the random part `suffix`: the timestamp in at least ten digits, a hyphen,
/// the suffix, and the tag.
pub fn generation_name(secs: u64, suffix: &str) -> (name: String)
    ensures
        name@ == generation_name_of(secs as nat, suffix@),
{
    let mut name = String::new();
    push_padded_decimal(&mut name, secs, TIMESTAMP_WIDTH);
    name.push('-');
    name.append(suffix);
    name.push('.');
    name.push('r');
    name
}

/// One draw from the `Alphanumeric` distribution of `rand` on the generator of
/// the calling thread (`Rng::sample` on `rand::thread_rng()`). The contract
/// is believed, not proved. It claims what `rand` documents of every draw,
/// that the byte is an ASCII letter or digit, and nothing about which one it
/// is: two draws are unrelated.
#[verifier::external_body]
fn sample_alphanumeric() -> (byte: u8)
    ensures
        is_alphanumeric(byte as char),
{
    rand::Rng::sample(&mut rand::thread_rng(), rand::distributions::Alphanumeric)
}

/// The random part of a generation name, drawn anew on every call.
pub fn fresh_suffix() -> (suffix: String)
    ensures
        is_suffix(suffix@),
{
    let mut suffix = String::new();
    let mut drawn: usize = 0;
    while drawn < SUFFIX_LENGTH
        invariant
            drawn <= SUFFIX_LENGTH,
            suffix@.len() == drawn,
            forall|i: int| 0 <= i < suffix@.len() ==> is_alphanumeric(#[trigger] suffix@[i]),
        decreases SUFFIX_LENGTH - drawn,
    {
        let byte = sample_alphanumeric();
        suffix.push(byte as char);
        drawn += 1;
    }
    suffix
}

/// A name for a generation created now, at `secs` seconds after the epoch.
/// The random part is drawn anew on every call.
pub fn fresh_generation_name(secs: u64) -> (name: String)
    ensures
        exists|suffix: Seq<char>|
            is_suffix(suffix) && name@ == #[trigger] generation_name_of(secs as nat, suffix),
{
    let suffix = fresh_suffix();
    generation_name(secs, suffix.as_str())
}

/// The order on names is transitive.
pub proof fn lemma_lex_lt_transitive(a: Seq<char>, b: Seq<char>, c: Seq<char>)
    requires
        lex_lt(a, b),
        lex_lt(b, c),
    ensures
        lex_lt(a, c),
    decreases a.len(),
{
    if a.len() > 0 && a[0] == b[0] && b[0] == c[0] {
        lemma_lex_lt_transitive(a.drop_first(), b.drop_first(), c.drop_first());
    }
}

/// No name comes before itself.
pub proof fn lemma_lex_lt_irreflexive(a: Seq<char>)
    ensures
        !lex_lt(a, a),
    decreases a.len(),
{
    if a.len() > 0 {
        lemma_lex_lt_irreflexive(a.drop_first());
    }
}

/// Any two different names are ordered one way or the other.
pub proof fn lemma_lex_lt_connected(a: Seq<char>, b: Seq<char>)
    ensures
        lex_lt(a, b) || lex_lt(b, a) || a == b,
    decreases a.len(),
{
    if a.len() > 0 && b.len() > 0 && a[0] == b[0] {
        lemma_lex_lt_connected(a.drop_first(), b.drop_first());
        if a.drop_first() == b.drop_first() {
            assert(a =~= seq![a[0]] + a.drop_first());
            assert(b =~= seq![b[0]] + b.drop_first());
        }
    } else if a.len() == 0 && b.len() == 0 {
        assert(a =~= b);
    }
}

/// Ten to the power of `e`.
pub open spec fn pow10(e: nat) -> nat
    decreases e,
{
    if e == 0 {
        1
    } else {
        10 * pow10((e - 1) as nat)
    }
}

/// A number that fits into `width` digits is written with exactly `width`
/// digits.
pub proof fn lemma_padded_decimal_len(n: nat, width: nat)
    requires
        width >= 1,
        n < pow10(width),
    ensures
        padded_decimal(n, width).len() == width,
    decreases width,
{
    reveal_with_fuel(pow10, 2);
    if width > 1 {
        lemma_padded_decimal_len(n / 10, (width - 1) as nat);
    }
}

/// What two names have in common at their start does not decide their order.
pub proof fn lemma_lex_lt_common_prefix(p: Seq<char>, x: Seq<char>, y: Seq<char>)
    ensures
        lex_lt(p + x, p + y) == lex_lt(x, y),
    decreases p.len(),
{
    if p.len() == 0 {
        assert(p + x =~= x);
        assert(p + y =~= y);
    } else {
        assert((p + x).drop_first() =~= p.drop_first() + x);
        assert((p + y).drop_first() =~= p.drop_first() + y);
        lemma_lex_lt_common_prefix(p.drop_first(), x, y);
    }
}

/// Where two names start with parts of equal length and these parts are in
/// order, the names are in the same order, whatever follows.
pub proof fn lemma_lex_lt_decided_by_start(p: Seq<char>, q: Seq<char>, x: Seq<char>, y: Seq<char>)
    requires
        p.len() == q.len(),
        lex_lt(p, q),
    ensures
        lex_lt(p + x, q + y),
    decreases p.len(),
{
    if p[0] == q[0] {
        assert((p + x).drop_first() =~= p.drop_first() + x);
        assert((q + y).drop_first() =~= q.drop_first() + y);
        lemma_lex_lt_decided_by_start(p.drop_first(), q.drop_first(), x, y);
    }
}

/// Written with the same number of digits, the smaller number sorts first.
pub proof fn lemma_padded_decimal_order(a: nat, b: nat, width: nat)
    requires
        width >= 1,
        a < b < pow10(width),
    ensures
        lex_lt(padded_decimal(a, width), padded_decimal(b, width)),
    decreases width,
{
    reveal_with_fuel(pow10, 2);
    if width == 1 {
        assert(padded_decimal(a, width) =~= seq![digit(a)]);
        assert(padded_decimal(b, width) =~= seq![digit(b)]);
    } else {
        let shorter = (width - 1) as nat;
        let pa = padded_decimal(a / 10, shorter);
        let pb = padded_decimal(b / 10, shorter);
        lemma_padded_decimal_len(a / 10, shorter);
        lemma_padded_decimal_len(b / 10, shorter);
        assert(padded_decimal(a, width) =~= pa + seq![digit(a % 10)]);
        assert(padded_decimal(b, width) =~= pb + seq![digit(b % 10)]);
        if a / 10 == b / 10 {
            lemma_lex_lt_common_prefix(pa, seq![digit(a % 10)], seq![digit(b % 10)]);
        } else {
            lemma_padded_decimal_order(a / 10, b / 10, shorter);
            lemma_lex_lt_decided_by_start(pa, pb, seq![digit(a % 10)], seq![digit(b % 10)]);
        }
    }
}

/// The order of names is the order of creation times: of two generations
/// created in different seconds, both before the timestamp outgrows its ten
/// digits, the earlier one sorts first, whatever the random parts are.
pub proof fn lemma_names_sort_by_time(
    earlier: nat,
    later: nat,
    suffix_earlier: Seq<char>,
    suffix_later: Seq<char>,
)
    requires
        earlier < later < 10_000_000_000,
    ensures
        lex_lt(
            generation_name_of(earlier, suffix_earlier),
            generation_name_of(later, suffix_later),
        ),
{
    let width = TIMESTAMP_WIDTH as nat;
    assert(pow10(10) == 10_000_000_000) by {
        reveal_with_fuel(pow10, 11);
    }
    lemma_padded_decimal_len(earlier, width);
    lemma_padded_decimal_len(later, width);
    lemma_padded_decimal_order(earlier, later, width);
    let rest_earlier = seq!['-'] + suffix_earlier + tag();
    let rest_later = seq!['-'] + suffix_later + tag();
    assert(generation_name_of(earlier, suffix_earlier) =~= padded_decimal(earlier, width)
        + rest_earlier);
    assert(generation_name_of(later, suffix_later) =~= padded_decimal(later, width) + rest_later);
    lemma_lex_lt_decided_by_start(
        padded_decimal(earlier, width),
        padded_decimal(later, width),
        rest_earlier,
        rest_later,
    );
}

/// Every generation name carries the tag, so a listing finds the generation
/// again.
pub proof fn lemma_generation_name_carries_tag(secs: nat, suffix: Seq<char>)
    ensures
        carries_tag(generation_name_of(secs, suffix)),
{
    let name = generation_name_of(secs, suffix);
    let head = padded_decimal(secs, TIMESTAMP_WIDTH as nat) + seq!['-'] + suffix;
    assert(name =~= head + tag());
    assert(head.len() >= 1);
    assert(name[name.len() - 2] == tag()[0]);
    assert(name[name.len() - 1] == tag()[1]);
}

} // verus!
