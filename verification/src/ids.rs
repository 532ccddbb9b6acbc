//! Job identifiers: 128-bit ULIDs and the texts made of them.

use crate::text::{lower, lower_char, lowercase};
use vstd::prelude::*;
use vstd::string::StringExecFns;

verus! {

/// The 128 bits of a ULID. Identifiers are ordered as these numbers are.
pub type JobId = u128;

/// The moment that an identifier begins with, in milliseconds since 1970: its first 48 bits.
pub open spec fn submission_time(id: JobId) -> nat {
    (id / 0x1_00000_00000_00000_00000) as nat
}

/// A base-32 digit in Crockford's alphabet: `0` to `9`, then the capital letters without `I`,
/// `L`, `O` and `U`.
pub open spec fn crockford(digit: nat) -> char {
    if digit < 10 {
        (48 + digit) as char
    } else if digit < 18 {
        (55 + digit) as char
    } else if digit < 20 {
        (56 + digit) as char
    } else if digit < 22 {
        (57 + digit) as char
    } else if digit < 27 {
        (58 + digit) as char
    } else {
        (59 + digit) as char
    }
}

/// The number with its last `count` base-32 digits dropped.
pub open spec fn without_digits(number: nat, count: nat) -> nat
    decreases count,
{
    if count == 0 {
        number
    } else {
        without_digits(number / 32, (count - 1) as nat)
    }
}

/// A ULID's canonical text: its 26 base-32 digits, the most significant one first.
pub open spec fn ulid_text(id: JobId) -> Seq<char> {
    Seq::new(26, |i: int| crockford(without_digits(id as nat, (25 - i) as nat) % 32))
}

/// `ulid::Ulid::to_string` writes the identifier's canonical text.
#[verifier::external_body]
pub(crate) fn ulid_string(id: JobId) -> (string: String)
    ensures
        string@ == ulid_text(id),
{
    ulid::Ulid(id).to_string()
}

/// `ulid::Ulid::new` makes an identifier of the present time and random bits; nothing is claimed
/// of it.
#[verifier::external_body]
pub(crate) fn new_ulid() -> (id: JobId) {
    ulid::Ulid::new().0
}

/// The name of the group that a job's output goes to.
pub open spec fn group_name(id: JobId) -> Seq<char> {
    "job-"@ + lower(ulid_text(id))
}

/// The name of the group that a job's output goes to: `job-` and the small letters of the ULID.
pub fn job_group(id: JobId) -> (name: String)
    ensures
        name@ == group_name(id),
{
    let mut name = "job-".to_owned();
    let suffix = lowercase(ulid_string(id).as_str());
    name.append(suffix.as_str());
    name
}

proof fn lemma_without_digits_step(number: nat, count: nat)
    ensures
        without_digits(number, count + 1) == without_digits(number, count) / 32,
    decreases count,
{
    reveal_with_fuel(without_digits, 2);
    if count > 0 {
        lemma_without_digits_step(number / 32, (count - 1) as nat);
    }
}

spec fn power_of_32(count: nat) -> nat
    decreases count,
{
    if count == 0 {
        1
    } else {
        32 * power_of_32((count - 1) as nat)
    }
}

proof fn lemma_all_digits_dropped(number: nat, count: nat)
    requires
        number < power_of_32(count),
    ensures
        without_digits(number, count) == 0,
    decreases count,
{
    if count > 0 {
        lemma_all_digits_dropped(number / 32, (count - 1) as nat);
    }
}

proof fn lemma_digits_agree(left: nat, right: nat, count: nat)
    requires
        count <= 26,
        without_digits(left, 26) == without_digits(right, 26),
        forall|k: nat|
            k < 26 ==> #[trigger] without_digits(left, k) % 32 == without_digits(right, k) % 32,
    ensures
        without_digits(left, count) == without_digits(right, count),
    decreases 26 - count,
{
    if count < 26 {
        lemma_digits_agree(left, right, count + 1);
        lemma_without_digits_step(left, count);
        lemma_without_digits_step(right, count);
        assert(without_digits(left, count) % 32 == without_digits(right, count) % 32);
    }
}

/// Different jobs have different output groups.
pub proof fn groups_of_different_jobs_differ(left: JobId, right: JobId)
    requires
        left != right,
    ensures
        group_name(left) != group_name(right),
{
    if group_name(left) == group_name(right) {
        let l = lower(ulid_text(left));
        let r = lower(ulid_text(right));
        assert(l =~= group_name(left).skip("job-"@.len() as int));
        assert(r =~= group_name(right).skip("job-"@.len() as int));
        assert forall|k: nat| k < 26 implies #[trigger] without_digits(left as nat, k) % 32
            == without_digits(right as nat, k) % 32 by {
            let place = 25 - k;
            assert(l[place] == r[place]);
            assert(l[place] == lower_char(crockford(without_digits(left as nat, k) % 32)));
            assert(r[place] == lower_char(crockford(without_digits(right as nat, k) % 32)));
        }
        assert(power_of_32(26) > u128::MAX) by {
            reveal_with_fuel(power_of_32, 27);
        }
        lemma_all_digits_dropped(left as nat, 26);
        lemma_all_digits_dropped(right as nat, 26);
        lemma_digits_agree(left as nat, right as nat, 0);
    }
}

} // verus!
