//! Epoch arithmetic and the deterministic naming of per-epoch storage
//! partitions: a slot maps to an epoch, an epoch maps to a schema name of the
//! shape `rpc2a_epoch_<decimal>`, and a schema name parses back to its epoch.

use vstd::prelude::*;
use vstd::string::StrSliceExecFns;
use vstd::string::StringExecFns;

verus! {

/// Maps a slot to the epoch that owns its storage partition: epochs are
/// consecutive runs of `slots_per_epoch` slots.
pub struct EpochSchedule {
    pub slots_per_epoch: u64,
}

impl EpochSchedule {
    pub open spec fn wf(&self) -> bool {
        self.slots_per_epoch >= 1
    }

    pub open spec fn spec_epoch_of_slot(&self, slot: u64) -> u64 {
        (slot / self.slots_per_epoch) as u64
    }

    pub fn new(slots_per_epoch: u64) -> (r: Self)
        requires
            slots_per_epoch >= 1,
        ensures
            r.wf(),
            r.slots_per_epoch == slots_per_epoch,
    {
        EpochSchedule { slots_per_epoch }
    }

    pub fn epoch_of_slot(&self, slot: u64) -> (r: u64)
        requires
            self.wf(),
        ensures
            r == self.spec_epoch_of_slot(slot),
    {
        slot / self.slots_per_epoch
    }
}

/// The decimal digit with value `d`.
pub open spec fn digit_char(d: int) -> char {
    if d == 0 {
        '0'
    } else if d == 1 {
        '1'
    } else if d == 2 {
        '2'
    } else if d == 3 {
        '3'
    } else if d == 4 {
        '4'
    } else if d == 5 {
        '5'
    } else if d == 6 {
        '6'
    } else if d == 7 {
        '7'
    } else if d == 8 {
        '8'
    } else {
        '9'
    }
}

/// The value of a decimal digit, or `None` for any other character.
pub open spec fn spec_char_digit(c: char) -> Option<u64> {
    if c == '0' {
        Some(0u64)
    } else if c == '1' {
        Some(1u64)
    } else if c == '2' {
        Some(2u64)
    } else if c == '3' {
        Some(3u64)
    } else if c == '4' {
        Some(4u64)
    } else if c == '5' {
        Some(5u64)
    } else if c == '6' {
        Some(6u64)
    } else if c == '7' {
        Some(7u64)
    } else if c == '8' {
        Some(8u64)
    } else if c == '9' {
        Some(9u64)
    } else {
        None
    }
}

pub open spec fn is_digit_char(c: char) -> bool {
    spec_char_digit(c) is Some
}

/// The canonical decimal digits of `n`, most significant first.
pub open spec fn dec_digits(n: nat) -> Seq<char>
    decreases n,
{
    if n < 10 {
        seq![digit_char(n as int)]
    } else {
        dec_digits(n / 10).push(digit_char((n % 10) as int))
    }
}

/// The numeric value of a digit string (0 for non-digit characters; only
/// meaningful where every character is a digit).
pub open spec fn digits_val(s: Seq<char>) -> nat
    decreases s.len(),
{
    if s.len() == 0 {
        0
    } else {
        digits_val(s.drop_last()) * 10 + match spec_char_digit(s.last()) {
            Some(d) => d as nat,
            None => 0,
        }
    }
}

pub open spec fn all_digits(s: Seq<char>) -> bool {
    forall|i: int| 0 <= i < s.len() ==> is_digit_char(s[i])
}

/// A canonical decimal representation: nonempty, digits only, and no leading
/// zero unless the string is exactly "0".
pub open spec fn canonical_digits(s: Seq<char>) -> bool {
    all_digits(s) && s.len() >= 1 && (s.len() == 1 || s[0] != '0')
}

/// `dec_digits` produces a canonical representation.
pub proof fn lemma_dec_digits_canonical(n: nat)
    ensures
        canonical_digits(dec_digits(n)),
        n >= 1 ==> dec_digits(n)[0] != '0',
    decreases n,
{
    if n < 10 {
    } else {
        lemma_dec_digits_canonical(n / 10);
        let prefix = dec_digits(n / 10);
        let whole = dec_digits(n);
        assert(whole == prefix.push(digit_char((n % 10) as int)));
        assert(n / 10 >= 1);
        assert(forall|i: int| 0 <= i < whole.len() ==> is_digit_char(whole[i])) by {
            assert(forall|i: int| 0 <= i < prefix.len() ==> whole[i] == prefix[i]);
            assert(whole[whole.len() - 1] == digit_char((n % 10) as int));
        }
    }
}

/// Evaluating the canonical digits of `n` gives back `n`.
pub proof fn lemma_digits_val_of_dec(n: nat)
    ensures
        digits_val(dec_digits(n)) == n,
    decreases n,
{
    if n < 10 {
        let s = dec_digits(n);
        assert(s.drop_last() =~= Seq::<char>::empty());
        assert(s.last() == digit_char(n as int));
        assert(spec_char_digit(digit_char(n as int)) == Some(n as u64));
        assert(digits_val(s) == digits_val(s.drop_last()) * 10 + n);
    } else {
        lemma_digits_val_of_dec(n / 10);
        let prefix = dec_digits(n / 10);
        let d = digit_char((n % 10) as int);
        let s = prefix.push(d);
        assert(s.drop_last() =~= prefix);
        assert(n % 10 < 10);
        assert(spec_char_digit(d) == Some((n % 10) as u64));
        assert(digits_val(s) == digits_val(prefix) * 10 + (n % 10));
        assert((n / 10) * 10 + n % 10 == n) by {
            vstd::arithmetic::div_mod::lemma_fundamental_div_mod(n as int, 10);
        }
    }
}

/// A digit appended on the right multiplies the value by ten.
proof fn lemma_digits_val_step(s: Seq<char>, i: int)
    requires
        0 <= i < s.len(),
    ensures
        digits_val(s.take(i + 1)) == digits_val(s.take(i)) * 10 + match spec_char_digit(
            s[i],
        ) {
            Some(d) => d as nat,
            None => 0nat,
        },
{
    assert(s.take(i + 1).drop_last() =~= s.take(i));
    assert(s.take(i + 1).last() == s[i]);
}

/// The value of a digit string never shrinks as more digits are read.
proof fn lemma_digits_val_monotone(s: Seq<char>, i: int, j: int)
    requires
        0 <= i <= j <= s.len(),
    ensures
        digits_val(s.take(i)) <= digits_val(s.take(j)),
    decreases j - i,
{
    if i < j {
        lemma_digits_val_monotone(s, i, j - 1);
        lemma_digits_val_step(s, j - 1);
    }
}

/// A single decimal digit as a string slice.
fn digit_str(d: u64) -> (r: &'static str)
    requires
        d < 10,
    ensures
        r@ == seq![digit_char(d as int)],
{
    proof {
        reveal_strlit("0");
        reveal_strlit("1");
        reveal_strlit("2");
        reveal_strlit("3");
        reveal_strlit("4");
        reveal_strlit("5");
        reveal_strlit("6");
        reveal_strlit("7");
        reveal_strlit("8");
        reveal_strlit("9");
    }
    let s: &'static str = if d == 0 {
        "0"
    } else if d == 1 {
        "1"
    } else if d == 2 {
        "2"
    } else if d == 3 {
        "3"
    } else if d == 4 {
        "4"
    } else if d == 5 {
        "5"
    } else if d == 6 {
        "6"
    } else if d == 7 {
        "7"
    } else if d == 8 {
        "8"
    } else {
        "9"
    };
    proof {
        assert(s@ =~= seq![digit_char(d as int)]);
    }
    s
}

/// Renders `n` in decimal, producing exactly `dec_digits(n)`.
pub fn u64_to_dec(n: u64) -> (r: String)
    ensures
        r@ == dec_digits(n as nat),
    decreases n,
{
    if n < 10 {
        String::from_str(digit_str(n))
    } else {
        let prefix = u64_to_dec(n / 10);
        let r = prefix.concat(digit_str(n % 10));
        proof {
            assert(dec_digits(n as nat) =~= dec_digits((n / 10) as nat) + seq![
                digit_char((n % 10) as int),
            ]);
        }
        r
    }
}

/// The fixed prefix of every epoch partition's schema name.
pub open spec fn spec_schema_prefix() -> Seq<char> {
    "rpc2a_epoch_"@
}

pub fn schema_prefix() -> (r: &'static str)
    ensures
        r@ == spec_schema_prefix(),
{
    "rpc2a_epoch_"
}

/// The deterministic schema name of epoch `epoch`'s partition.
pub open spec fn spec_schema_name(epoch: u64) -> Seq<char> {
    spec_schema_prefix() + dec_digits(epoch as nat)
}

pub fn build_schema_name(epoch: u64) -> (r: String)
    ensures
        r@ == spec_schema_name(epoch),
{
    let digits = u64_to_dec(epoch);
    String::from_str(schema_prefix()).concat(digits.as_str())
}

/// The digit with value `c`, or `None` for any other character.
fn char_to_digit(c: char) -> (r: Option<u64>)
    ensures
        r == spec_char_digit(c),
{
    match c {
        '0' => Some(0),
        '1' => Some(1),
        '2' => Some(2),
        '3' => Some(3),
        '4' => Some(4),
        '5' => Some(5),
        '6' => Some(6),
        '7' => Some(7),
        '8' => Some(8),
        '9' => Some(9),
        _ => None,
    }
}

/// What parsing a decimal string yields: its value if it is canonical and
/// fits in a `u64`, and `None` otherwise.
pub open spec fn spec_parse_dec(s: Seq<char>) -> Option<u64> {
    if canonical_digits(s) && digits_val(s) <= u64::MAX {
        Some(digits_val(s) as u64)
    } else {
        None
    }
}

/// Parses a canonical decimal string.
pub fn parse_dec(s: &str) -> (r: Option<u64>)
    ensures
        r == spec_parse_dec(s@),
{
    let len = s.unicode_len();
    if len == 0 {
        return None;
    }
    if len > 1 && s.get_char(0) == '0' {
        proof {
            assert(!canonical_digits(s@));
        }
        return None;
    }
    let mut acc: u64 = 0;
    let mut i: usize = 0;
    while i < len
        invariant
            len == s@.len(),
            0 <= i <= len,
            forall|j: int| 0 <= j < i ==> is_digit_char(s@[j]),
            acc == digits_val(s@.take(i as int)),
        decreases len - i,
    {
        let c = s.get_char(i);
        match char_to_digit(c) {
            None => {
                proof {
                    assert(!all_digits(s@));
                }
                return None;
            },
            Some(d) => {
                proof {
                    lemma_digits_val_step(s@, i as int);
                }
                let shifted = match acc.checked_mul(10) {
                    Some(v) => v,
                    None => {
                        proof {
                            lemma_digits_val_monotone(s@, i + 1, len as int);
                            assert(s@.take(len as int) =~= s@);
                        }
                        return None;
                    },
                };
                acc = match shifted.checked_add(d) {
                    Some(v) => v,
                    None => {
                        proof {
                            lemma_digits_val_monotone(s@, i + 1, len as int);
                            assert(s@.take(len as int) =~= s@);
                        }
                        return None;
                    },
                };
            },
        }
        i = i + 1;
    }
    proof {
        assert(s@.take(len as int) =~= s@);
    }
    Some(acc)
}

/// What parsing a schema name yields: the epoch whose canonical schema name
/// it is, and `None` for any other string.
pub open spec fn spec_parse_schema_epoch(s: Seq<char>) -> Option<u64> {
    let pl = spec_schema_prefix().len() as int;
    if s.len() > pl && s.take(pl) == spec_schema_prefix() {
        spec_parse_dec(s.skip(pl))
    } else {
        None
    }
}

/// Recovers the epoch from a partition's schema name.
pub fn parse_epoch_from_schema_name(name: &str) -> (r: Option<u64>)
    ensures
        r == spec_parse_schema_epoch(name@),
{
    let prefix = schema_prefix();
    let pl = prefix.unicode_len();
    let len = name.unicode_len();
    if len <= pl {
        return None;
    }
    let mut i: usize = 0;
    while i < pl
        invariant
            pl == spec_schema_prefix().len(),
            len == name@.len(),
            len > pl,
            0 <= i <= pl,
            prefix@ == spec_schema_prefix(),
            forall|j: int| 0 <= j < i ==> name@[j] == spec_schema_prefix()[j],
        decreases pl - i,
    {
        if name.get_char(i) != prefix.get_char(i) {
            proof {
                assert(name@.take(pl as int)[i as int] != spec_schema_prefix()[i as int]);
            }
            return None;
        }
        i = i + 1;
    }
    proof {
        assert(name@.take(pl as int) =~= spec_schema_prefix());
    }
    let rest = name.substring_char(pl, len);
    proof {
        assert(rest@ =~= name@.skip(pl as int));
    }
    parse_dec(rest)
}

/// Round trip of the partition naming scheme: the schema name built for an
/// epoch always parses back to exactly that epoch.
pub proof fn lemma_schema_name_round_trip(epoch: u64)
    ensures
        spec_parse_schema_epoch(spec_schema_name(epoch)) == Some(epoch),
{
    let s = spec_schema_name(epoch);
    let pl = spec_schema_prefix().len() as int;
    lemma_dec_digits_canonical(epoch as nat);
    lemma_digits_val_of_dec(epoch as nat);
    assert(s.take(pl) =~= spec_schema_prefix());
    assert(s.skip(pl) =~= dec_digits(epoch as nat));
}

} // verus!
