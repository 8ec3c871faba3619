//! The choice the command-line front end asks for at start: `1` receives,
//! any other number sends.

use vstd::prelude::*;

verus! {

broadcast use {vstd::string::axiom_spec_iter, vstd::string::next_postcondition};

/// The characters with the Unicode `White_Space` property, which trimming removes.
pub open spec fn is_white_space(c: char) -> bool {
    ||| '\u{9}' <= c <= '\u{d}'
    ||| c == ' '
    ||| c == '\u{85}'
    ||| c == '\u{a0}'
    ||| c == '\u{1680}'
    ||| '\u{2000}' <= c <= '\u{200a}'
    ||| c == '\u{2028}'
    ||| c == '\u{2029}'
    ||| c == '\u{202f}'
    ||| c == '\u{205f}'
    ||| c == '\u{3000}'
}

/// `s` without its leading white space.
pub open spec fn trim_start(s: Seq<char>) -> Seq<char>
    decreases s.len(),
{
    if s.len() > 0 && is_white_space(s[0]) {
        trim_start(s.drop_first())
    } else {
        s
    }
}

/// `s` without its trailing white space.
pub open spec fn trim_end(s: Seq<char>) -> Seq<char>
    decreases s.len(),
{
    if s.len() > 0 && is_white_space(s.last()) {
        trim_end(s.drop_last())
    } else {
        s
    }
}

/// `s` without white space at either end.
pub open spec fn trim(s: Seq<char>) -> Seq<char> {
    trim_end(trim_start(s))
}

/// Whether `c` is an ASCII decimal digit.
pub open spec fn is_digit(c: char) -> bool {
    '0' <= c <= '9'
}

/// The number that the decimal digits `d` spell out.
pub open spec fn digits_value(d: Seq<char>) -> nat
    decreases d.len(),
{
    if d.len() == 0 {
        0
    } else {
        digits_value(d.drop_last()) * 10 + (d.last() as nat - '0' as nat) as nat
    }
}

/// `s` without one leading `+`, if it has one.
pub open spec fn sign_stripped(s: Seq<char>) -> Seq<char> {
    if s.len() > 0 && s[0] == '+' {
        s.drop_first()
    } else {
        s
    }
}

/// Whether every character of `d` is a decimal digit.
pub open spec fn all_digits(d: Seq<char>) -> bool {
    forall|i: int| 0 <= i < d.len() ==> is_digit(#[trigger] d[i])
}

/// What reading `s` as a `u8` gives, as the standard library reads it: an
/// optional `+`, then at least one decimal digit, for a value of at most 255.
pub open spec fn parse_u8_spec(s: Seq<char>) -> Option<u8> {
    let d = sign_stripped(s);
    if d.len() == 0 || !all_digits(d) {
        None
    } else if digits_value(d) <= 255 {
        Some(digits_value(d) as u8)
    } else {
        None
    }
}

/// What the user asked for.
#[derive(PartialEq, Eq, Structural, Debug, Clone, Copy)]
pub enum Mode {
    /// Wait for a file and store it.
    Receive,
    /// Look for a receiver and send to it.
    Send,
}

/// The characters of `s`, in order.
fn chars_of(s: &str) -> (out: Vec<char>)
    ensures
        out@ == s@,
{
    let mut it = s.chars();
    let mut out: Vec<char> = Vec::new();
    loop
        invariant
            out@ + vstd::std_specs::iter::IteratorSpec::remaining(&it) == s@,
            vstd::std_specs::iter::IteratorSpec::obeys_prophetic_iter_laws(&it),
            vstd::std_specs::iter::IteratorSpec::decrease(&it) is Some,
        ensures
            out@ == s@,
        decreases vstd::std_specs::iter::IteratorSpec::decrease(&it)->0,
    {
        match it.next() {
            Some(c) => {
                out.push(c);
            },
            None => {
                assert(out@ =~= s@);
                break;
            },
        }
    }
    out
}


/// Whether `c` has the Unicode `White_Space` property.
fn white_space(c: char) -> (b: bool)
    ensures
        b == is_white_space(c),
{
    ('\u{9}' <= c && c <= '\u{d}') || c == ' ' || c == '\u{85}' || c == '\u{a0}' || c == '\u{1680}'
        || ('\u{2000}' <= c && c <= '\u{200a}') || c == '\u{2028}' || c == '\u{2029}' || c == '\u{202f}'
        || c == '\u{205f}' || c == '\u{3000}'
}

/// A number spelled by digits is at least the number spelled by any of its prefixes.
proof fn lemma_digits_value_prefix(d: Seq<char>, k: int)
    requires
        0 <= k <= d.len(),
        all_digits(d),
    ensures
        digits_value(d) >= digits_value(d.take(k)),
    decreases d.len(),
{
    if k < d.len() {
        let p = d.drop_last();
        assert forall|i: int| 0 <= i < p.len() implies is_digit(#[trigger] p[i]) by {
            assert(p[i] == d[i]);
        }
        lemma_digits_value_prefix(p, k);
        assert(p.take(k) =~= d.take(k));
    } else {
        assert(d.take(k) =~= d);
    }
}

/// The bounds of `chars` once white space is trimmed from both ends.
fn trim_bounds(chars: &Vec<char>) -> (r: (usize, usize))
    ensures
        r.0 <= r.1 <= chars@.len(),
        trim(chars@) == chars@.subrange(r.0 as int, r.1 as int),
{
    let ghost s = chars@;
    let n = chars.len();
    let mut start: usize = 0;
    assert(s.skip(0) =~= s);
    while start < n && white_space(chars[start])
        invariant
            chars@ == s,
            start <= n == s.len(),
            trim_start(s) == trim_start(s.skip(start as int)),
        decreases n - start,
    {
        assert(s.skip(start as int)[0] == s[start as int]);
        assert(s.skip(start as int).drop_first() =~= s.skip(start + 1));
        start = start + 1;
    }
    let ghost t = s.skip(start as int);
    assert(trim_start(s) == t);
    assert(t =~= s.subrange(start as int, n as int));
    let mut end: usize = n;
    while end > start && white_space(chars[end - 1])
        invariant
            chars@ == s,
            start <= end <= n == s.len(),
            trim_end(t) == trim_end(s.subrange(start as int, end as int)),
        decreases end,
    {
        assert(s.subrange(start as int, end as int).last() == s[end - 1]);
        assert(s.subrange(start as int, end as int).drop_last() =~= s.subrange(start as int, end - 1));
        end = end - 1;
    }
    (start, end)
}

/// Reads the digits `chars[first..end]` as a `u8`: nothing when one of them
/// is not a digit or their value exceeds 255.
fn parse_digits(chars: &Vec<char>, first: usize, end: usize) -> (r: Option<u8>)
    requires
        first < end <= chars@.len(),
    ensures
        r == (if !all_digits(chars@.subrange(first as int, end as int)) {
            None
        } else if digits_value(chars@.subrange(first as int, end as int)) <= 255 {
            Some(digits_value(chars@.subrange(first as int, end as int)) as u8)
        } else {
            None
        }),
{
    let ghost d = chars@.subrange(first as int, end as int);
    let mut acc: u32 = 0;
    let mut k: usize = first;
    while k < end
        invariant
            first <= k <= end <= chars@.len(),
            d == chars@.subrange(first as int, end as int),
            acc <= 255,
            acc as nat == digits_value(d.take(k - first)),
            forall|i: int| 0 <= i < k - first ==> is_digit(#[trigger] d[i]),
        decreases end - k,
    {
        let c = chars[k];
        assert(d[k - first] == c);
        if !('0' <= c && c <= '9') {
            assert(!is_digit(d[k - first]));
            return None;
        }
        let digit: u32 = (c as u32) - ('0' as u32);
        assert(d.take(k - first + 1).drop_last() =~= d.take(k - first));
        assert(d.take(k - first + 1).last() == c);
        let ghost old_acc = acc;
        acc = acc * 10 + digit;
        assert(digits_value(d.take(k - first + 1)) == old_acc * 10 + digit);
        if acc > 255 {
            proof {
                if all_digits(d) {
                    lemma_digits_value_prefix(d, k - first + 1);
                }
            }
            return None;
        }
        k = k + 1;
    }
    assert(d.take(k - first) =~= d);
    Some(acc as u8)
}

/// Reads the choice typed by the user: white space around it is ignored, and
/// what is left must read as a `u8` (an optional `+`, then decimal digits,
/// at most 255). `1` asks to receive, any other number to send; anything
/// that is not such a number gives nothing.
pub fn choose_mode(input: &str) -> (mode: Option<Mode>)
    ensures
        mode == (match parse_u8_spec(trim(input@)) {
            Some(n) => Some(if n == 1 { Mode::Receive } else { Mode::Send }),
            None => None::<Mode>,
        }),
{
    let chars = chars_of(input);
    let (start, end) = trim_bounds(&chars);
    let ghost w = chars@.subrange(start as int, end as int);
    let mut first = start;
    if end > start && chars[start] == '+' {
        first = start + 1;
    }
    assert(sign_stripped(w) =~= chars@.subrange(first as int, end as int));
    if first == end {
        return None;
    }
    match parse_digits(&chars, first, end) {
        Some(n) => if n == 1 {
            Some(Mode::Receive)
        } else {
            Some(Mode::Send)
        },
        None => None,
    }
}

} // verus!
