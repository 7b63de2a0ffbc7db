//! The identifiers of stream clients.

use crate::text::decimal_text;
use vstd::prelude::*;

verus! {

/// The identifier of a client: when its stream was asked for, and the number of the request.
pub open spec fn user_id(now_ms: u64, number: u64) -> Seq<char> {
    "soymilk-curry-"@ + crate::text::decimal(now_ms as nat) + "-"@ + crate::text::decimal(
        number as nat,
    )
}

/// Builds the identifier of a client.
pub fn user_id_text(now_ms: u64, number: u64) -> (result: String)
    ensures
        result@ == user_id(now_ms, number),
{
    let mut result = "soymilk-curry-".to_owned();
    let time = decimal_text(now_ms);
    result.append(time.as_str());
    result.append("-");
    let count = decimal_text(number);
    result.append(count.as_str());
    result
}

/// The number that a request is given after `issued` others were: they are counted from one, and
/// start over when they run out.
pub open spec fn number_of(issued: nat) -> u64 {
    ((issued + 1) % 0x1_0000_0000_0000_0000) as u64
}

/// Whether `id` is the identifier of a client whose request was one of those numbered from the
/// count `from` on and before the count `to`.
pub open spec fn issued_within(id: Seq<char>, from: nat, to: nat) -> bool {
    exists|now_ms: u64, k: nat|
        from <= k < to && id == #[trigger] user_id(now_ms, number_of(k))
}

/// The numbers that a process gives to the requests for streams, whatever tuners they are for. The
/// view is how many it has given.
pub struct UserNumbers {
    next: u64,
    issued: Ghost<nat>,
}

impl View for UserNumbers {
    type V = nat;

    closed spec fn view(&self) -> nat {
        self.issued@
    }
}

impl UserNumbers {
    #[verifier::type_invariant]
    spec fn counts(self) -> bool {
        self.next == number_of(self.issued@)
    }

    /// No number was given yet.
    pub fn new() -> (result: UserNumbers)
        ensures
            result@ == 0,
    {
        UserNumbers { next: 1, issued: Ghost(0) }
    }

    /// Gives the next number.
    pub fn take(&mut self) -> (result: u64)
        ensures
            result == number_of(old(self)@),
            final(self)@ == old(self)@ + 1,
    {
        proof {
            use_type_invariant(&*self);
        }
        let number = self.next;
        let ghost issued = self.issued@;
        *self = UserNumbers { next: number.wrapping_add(1), issued: Ghost(issued + 1) };
        number
    }
}

/// Requests that are fewer than 2^64 numbers apart are given different numbers.
pub proof fn numbers_differ(a: nat, b: nat)
    requires
        a < b < a + 0x1_0000_0000_0000_0000,
    ensures
        number_of(a) != number_of(b),
{
}

/// Clients that ask at different times, or whose requests have different numbers, have different
/// identifiers.
pub proof fn user_ids_differ(now_a: u64, number_a: u64, now_b: u64, number_b: u64)
    requires
        now_a != now_b || number_a != number_b,
    ensures
        user_id(now_a, number_a) != user_id(now_b, number_b),
{
    reveal_strlit("soymilk-curry-");
    reveal_strlit("-");
    let head = "soymilk-curry-"@;
    let a = user_id(now_a, number_a);
    let b = user_id(now_b, number_b);
    let time_a = crate::text::decimal(now_a as nat);
    let time_b = crate::text::decimal(now_b as nat);
    let count_a = crate::text::decimal(number_a as nat);
    let count_b = crate::text::decimal(number_b as nat);
    crate::text::decimal_is_digits(now_a as nat);
    crate::text::decimal_is_digits(now_b as nat);
    if a == b {
        let start = head.len() as int;
        assert(a[start + time_a.len()] == '-');
        assert(b[start + time_b.len()] == '-');
        if time_a.len() < time_b.len() {
            assert(b[start + time_a.len()] == time_b[time_a.len() as int]);
        } else if time_b.len() < time_a.len() {
            assert(a[start + time_b.len()] == time_a[time_b.len() as int]);
        }
        assert(a.subrange(start, start + time_a.len()) =~= time_a);
        assert(b.subrange(start, start + time_b.len()) =~= time_b);
        assert(a.skip(start + time_a.len() + 1) =~= count_a);
        assert(b.skip(start + time_b.len() + 1) =~= count_b);
        crate::text::decimal_is_injective(now_a as nat, now_b as nat);
        crate::text::decimal_is_injective(number_a as nat, number_b as nat);
    }
}

/// The first request is number one, each further one has the next number, and after the greatest
/// number they start over at zero.
pub proof fn numbers_count_on(issued: nat)
    ensures
        number_of(0) == 1,
        number_of(issued) < u64::MAX ==> number_of(issued + 1) == number_of(issued) + 1,
        number_of(issued) == u64::MAX ==> number_of(issued + 1) == 0,
{
}

/// An identifier is the server's name, the time and the number, in this order, each as a decimal
/// numeral, with hyphens between them.
pub proof fn user_ids_tell_time_and_number(now_ms: u64, number: u64) -> (parts: (
    Seq<char>,
    Seq<char>,
))
    ensures
        user_id(now_ms, number) == "soymilk-curry-"@ + parts.0 + "-"@ + parts.1,
        crate::text::denoted(parts.0) == now_ms,
        crate::text::denoted(parts.1) == number,
        forall|i: int| 0 <= i < parts.0.len() ==> crate::text::is_digit(#[trigger] parts.0[i]),
        forall|i: int| 0 <= i < parts.1.len() ==> crate::text::is_digit(#[trigger] parts.1[i]),
        parts.0.len() > 0 && (parts.0.len() > 1 ==> parts.0[0] != '0'),
        parts.1.len() > 0 && (parts.1.len() > 1 ==> parts.1[0] != '0'),
{
    crate::text::numerals_denote_their_numbers(now_ms as nat);
    crate::text::numerals_denote_their_numbers(number as nat);
    crate::text::decimal_is_digits(now_ms as nat);
    crate::text::decimal_is_digits(number as nat);
    (crate::text::decimal(now_ms as nat), crate::text::decimal(number as nat))
}

} // verus!
