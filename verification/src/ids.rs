//! Identifier assignment.
//!
//! The store assigns each event and item an opaque unique string built
//! from a per-store serial counter: `e-<n>` for events, `i-<n>` for
//! items.  Uniqueness rests on the decimal rendering being injective,
//! which is proved here.

use vstd::prelude::*;
use vstd::string::StrSliceExecFns;
use vstd::utf8::is_ascii_chars;
use vstd::string::StringExecFns;

verus! {

/// The decimal digit character for `d` in `0 ..= 9`.
pub open spec fn digit_char(d: int) -> char {
    if d == 0 {
        '0'
    } else if d == 1 {
        '1'
    } else if d == 2 {
        '2'
    } else if d == 3 {
        '3'
    } else if d == 4 {
        '4'
    } else if d == 5 {
        '5'
    } else if d == 6 {
        '6'
    } else if d == 7 {
        '7'
    } else if d == 8 {
        '8'
    } else {
        '9'
    }
}

/// The decimal digits of `n`, most significant first.
pub open spec fn dec_chars(n: nat) -> Seq<char>
    decreases n,
{
    if n < 10 {
        seq![digit_char(n as int)]
    } else {
        dec_chars(n / 10).push(digit_char((n % 10) as int))
    }
}

/// A decimal rendering is never empty.
pub proof fn lemma_dec_chars_nonempty(n: nat)
    ensures
        dec_chars(n).len() >= 1,
    decreases n,
{
    if n >= 10 {
        lemma_dec_chars_nonempty(n / 10);
    }
}

/// Distinct numbers render to distinct digit strings.
pub proof fn lemma_dec_chars_injective(a: nat, b: nat)
    requires
        dec_chars(a) == dec_chars(b),
    ensures
        a == b,
    decreases a,
{
    if a < 10 && b < 10 {
        assert(dec_chars(a)[0] == digit_char(a as int));
        assert(dec_chars(b)[0] == digit_char(b as int));
    } else if a < 10 && b >= 10 {
        lemma_dec_chars_nonempty(b / 10);
        assert(dec_chars(b).len() >= 2);
    } else if a >= 10 && b < 10 {
        lemma_dec_chars_nonempty(a / 10);
        assert(dec_chars(a).len() >= 2);
    } else {
        assert(dec_chars(a).last() == digit_char((a % 10) as int));
        assert(dec_chars(b).last() == digit_char((b % 10) as int));
        assert(a % 10 == b % 10);
        assert(dec_chars(a / 10) =~= dec_chars(a).drop_last());
        assert(dec_chars(b / 10) =~= dec_chars(b).drop_last());
        lemma_dec_chars_injective(a / 10, b / 10);
        assert(a == 10 * (a / 10) + a % 10);
        assert(b == 10 * (b / 10) + b % 10);
    }
}

/// The identifier string of the event created with serial `n`.
pub open spec fn event_id_chars(n: nat) -> Seq<char> {
    "e-"@ + dec_chars(n)
}

/// The identifier string of the item created with serial `n`.
pub open spec fn item_id_chars(n: nat) -> Seq<char> {
    "i-"@ + dec_chars(n)
}

/// Distinct serials give distinct event identifiers.
pub proof fn lemma_event_id_injective(a: nat, b: nat)
    requires
        event_id_chars(a) == event_id_chars(b),
    ensures
        a == b,
{
    reveal_strlit("e-");
    let p: int = "e-"@.len() as int;
    assert(dec_chars(a) =~= event_id_chars(a).skip(p));
    assert(dec_chars(b) =~= event_id_chars(b).skip(p));
    lemma_dec_chars_injective(a, b);
}

/// Distinct serials give distinct item identifiers.
pub proof fn lemma_item_id_injective(a: nat, b: nat)
    requires
        item_id_chars(a) == item_id_chars(b),
    ensures
        a == b,
{
    reveal_strlit("i-");
    let p: int = "i-"@.len() as int;
    assert(dec_chars(a) =~= item_id_chars(a).skip(p));
    assert(dec_chars(b) =~= item_id_chars(b).skip(p));
    lemma_dec_chars_injective(a, b);
}

/// Appends the decimal digits of `n` to `s`.
fn push_dec(s: &mut String, n: u64)
    ensures
        final(s)@ == old(s)@ + dec_chars(n as nat),
    decreases n,
{
    let ghost pre: Seq<char> = s@;
    if n >= 10 {
        push_dec(s, n / 10);
    }
    let d: usize = (n % 10) as usize;
    let digits: &str = "0123456789";
    proof {
        reveal_strlit("0123456789");
        assert(is_ascii_chars(digits@)) by {
            assert(forall|i: int| 0 <= i < 10 ==> '\0' <= #[trigger] digits@[i] <= '\u{7f}');
        }
    }
    let ds: &str = digits.substring_ascii(d, d + 1);
    s.append(ds);
    proof {
        assert(ds@ =~= seq![digit_char(d as int)]);
        if n < 10 {
            assert(s@ =~= pre + dec_chars(n as nat));
        } else {
            assert(s@ =~= pre + dec_chars(n as nat));
        }
    }
}

/// Builds the identifier string `e-<n>`.
pub fn event_id_string(n: u64) -> (r: String)
    ensures
        r@ == event_id_chars(n as nat),
{
    let mut s: String = String::from_str("e-");
    push_dec(&mut s, n);
    s
}

/// Builds the identifier string `i-<n>`.
pub fn item_id_string(n: u64) -> (r: String)
    ensures
        r@ == item_id_chars(n as nat),
{
    let mut s: String = String::from_str("i-");
    push_dec(&mut s, n);
    s
}

} // verus!
