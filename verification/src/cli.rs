//! Command-line flag handling shared by the tools: `--name value` lookup,
//! bare-flag presence, and decimal `u64` flag values.

use vstd::prelude::*;
use vstd::string::StringExecFns;
use vstd::string::StringSliceAdditionalSpecFns;

verus! {

/// Index of the first argument equal to `name`.
pub open spec fn position(args: Seq<String>, name: Seq<char>) -> Option<int>
    decreases args.len(),
{
    if args.len() == 0 {
        None
    } else if args[0]@ == name {
        Some(0)
    } else {
        match position(args.drop_first(), name) {
            Some(i) => Some(i + 1),
            None => None,
        }
    }
}

/// The argument right after the first occurrence of `name`, if both exist.
pub open spec fn flag_value_of(args: Seq<String>, name: Seq<char>) -> Option<Seq<char>> {
    match position(args, name) {
        Some(i) => if i + 1 < args.len() {
            Some(args[i + 1]@)
        } else {
            None
        },
        None => None,
    }
}

proof fn lemma_position(args: Seq<String>, name: Seq<char>)
    ensures
        position(args, name) matches Some(i) ==> 0 <= i < args.len() && args[i]@ == name && forall|j: int|
            0 <= j < i ==> args[j]@ != name,
        position(args, name) is None ==> forall|j: int| 0 <= j < args.len() ==> args[j]@ != name,
    decreases args.len(),
{
    if args.len() > 0 {
        lemma_position(args.drop_first(), name);
        assert forall|j: int| 1 <= j < args.len() implies args[j] == args.drop_first()[j - 1] by {}
    }
}

fn find_flag(args: &[String], name: &str) -> (r: Option<usize>)
    ensures
        r matches Some(i) ==> position(args@, name@) == Some(i as int) && i < args@.len(),
        r is None ==> position(args@, name@) is None,
{
    let target = String::from_str(name);
    let mut i: usize = 0;
    proof {
        lemma_position(args@, name@);
    }
    while i < args.len()
        invariant
            i <= args@.len(),
            target@ == name@,
            forall|j: int| 0 <= j < i ==> args@[j]@ != name@,
            position(args@, name@) matches Some(p) ==> 0 <= p < args@.len() && args@[p]@ == name@ && forall|j: int|
                0 <= j < p ==> args@[j]@ != name@,
            position(args@, name@) is None ==> forall|j: int| 0 <= j < args@.len() ==> args@[j]@ != name@,
        decreases args@.len() - i,
    {
        if args[i] == target {
            return Some(i);
        }
        i = i + 1;
    }
    None
}

/// The value following `--name`, if the flag is present and not last.
pub fn flag_value(args: &[String], name: &str) -> (r: Option<String>)
    ensures
        match r {
            Some(v) => flag_value_of(args@, name@) == Some(v@),
            None => flag_value_of(args@, name@) is None,
        },
{
    match find_flag(args, name) {
        Some(i) => {
            assert(i < args@.len());
            if args.len() - i > 1 {
                Some(args[i + 1].clone())
            } else {
                None
            }
        },
        None => None,
    }
}

/// Whether `name` occurs among the arguments.
pub fn flag_present(args: &[String], name: &str) -> (r: bool)
    ensures
        r == (position(args@, name@) is Some),
        r == exists|j: int| 0 <= j < args@.len() && #[trigger] args@[j]@ == name@,
{
    proof {
        lemma_position(args@, name@);
    }
    find_flag(args, name).is_some()
}

/// The value of an ASCII decimal digit string.
pub open spec fn decimal_value(digits: Seq<u8>) -> nat
    decreases digits.len(),
{
    if digits.len() == 0 {
        0
    } else {
        decimal_value(digits.drop_last()) * 10 + (digits.last() - 48) as nat
    }
}

/// Every byte is an ASCII digit.
pub open spec fn all_digits(s: Seq<u8>) -> bool {
    forall|i: int| 0 <= i < s.len() ==> 48 <= #[trigger] s[i] <= 57
}

/// The digits of an unsigned decimal literal: an optional leading `+` is
/// dropped.
pub open spec fn unsigned_digits(s: Seq<u8>) -> Seq<u8> {
    if s.len() > 0 && s[0] == 43 {
        s.drop_first()
    } else {
        s
    }
}

/// What `u64`'s decimal parse yields for a byte string: an optional `+`,
/// then one or more ASCII digits whose value fits in 64 bits.
pub open spec fn parsed_u64(s: Seq<u8>) -> Option<u64> {
    let d = unsigned_digits(s);
    if d.len() > 0 && all_digits(d) && decimal_value(d) <= u64::MAX {
        Some(decimal_value(d) as u64)
    } else {
        None
    }
}

proof fn lemma_decimal_prefix(s: Seq<u8>, k: int)
    requires
        0 <= k <= s.len(),
        all_digits(s),
    ensures
        decimal_value(s.subrange(0, k)) <= decimal_value(s),
    decreases s.len(),
{
    if k < s.len() {
        let t = s.drop_last();
        assert(all_digits(t)) by {
            assert forall|i: int| 0 <= i < t.len() implies 48 <= #[trigger] t[i] <= 57 by {
                assert(t[i] == s[i]);
            }
        }
        lemma_decimal_prefix(t, k);
        assert(t.subrange(0, k) =~= s.subrange(0, k));
    } else {
        assert(s.subrange(0, k) =~= s);
    }
}

/// Parse an unsigned decimal `u64` the way `str::parse::<u64>` does.
pub fn parse_u64_str(v: &str) -> (r: Option<u64>)
    ensures
        r == parsed_u64(v.spec_bytes()),
{
    let bytes = v.as_bytes();
    let start: usize = if bytes.len() > 0 && bytes[0] == 43u8 { 1 } else { 0 };
    let ghost d = unsigned_digits(bytes@);
    assert(d =~= bytes@.subrange(start as int, bytes@.len() as int));
    if start >= bytes.len() {
        return None;
    }
    let mut acc: u64 = 0;
    let mut i: usize = start;
    while i < bytes.len()
        invariant
            start <= i <= bytes@.len(),
            bytes@ == v.spec_bytes(),
            d == unsigned_digits(bytes@),
            d == bytes@.subrange(start as int, bytes@.len() as int),
            all_digits(d.subrange(0, i - start)),
            acc as nat == decimal_value(d.subrange(0, i - start)),
        decreases bytes@.len() - i,
    {
        let b = bytes[i];
        let ghost pre = d.subrange(0, i - start);
        let ghost ext = d.subrange(0, i - start + 1);
        assert(ext.drop_last() =~= pre);
        assert(ext.last() == b);
        if b < 48u8 || b > 57u8 {
            assert(!all_digits(d)) by {
                assert(d[i - start] == b);
            }
            return None;
        }
        assert(all_digits(ext)) by {
            assert forall|j: int| 0 <= j < ext.len() implies 48 <= #[trigger] ext[j] <= 57 by {
                if j < ext.len() - 1 {
                    assert(ext[j] == pre[j]);
                }
            }
        }
        let digit = (b - 48u8) as u64;
        match acc.checked_mul(10) {
            Some(m) => match m.checked_add(digit) {
                Some(next) => {
                    acc = next;
                },
                None => {
                    proof {
                        lemma_rest_digits_then_bound(d, i - start + 1);
                    }
                    return None;
                },
            },
            None => {
                proof {
                    lemma_rest_digits_then_bound(d, i - start + 1);
                }
                return None;
            },
        }
        i = i + 1;
    }
    assert(d.subrange(0, d.len() as int) =~= d);
    Some(acc)
}

/// Once a digit prefix exceeds `u64::MAX`, the whole literal either has a
/// non-digit or a value beyond `u64::MAX`: either way it does not parse.
proof fn lemma_rest_digits_then_bound(d: Seq<u8>, k: int)
    requires
        0 < k <= d.len(),
        all_digits(d.subrange(0, k)),
        decimal_value(d.subrange(0, k)) > u64::MAX,
    ensures
        !(all_digits(d) && decimal_value(d) <= u64::MAX),
{
    if all_digits(d) {
        lemma_decimal_prefix(d, k);
    }
}

/// The `u64` value of flag `name`: `default` when the flag is absent, the
/// parsed value when it parses, and otherwise the error `bad <name>: <value>`.
pub fn parse_u64(args: &[String], name: &str, default: u64) -> (r: Result<u64, String>)
    ensures
        flag_value_of(args@, name@) is None ==> r == Ok::<u64, String>(default),
        flag_value_of(args@, name@) matches Some(v) ==> match parsed_u64(vstd::utf8::encode_utf8(v)) {
            Some(x) => r == Ok::<u64, String>(x),
            None => r matches Err(msg) && msg@ == "bad "@ + name@ + ": "@ + v,
        },
{
    match flag_value(args, name) {
        None => Ok(default),
        Some(v) => match parse_u64_str(v.as_str()) {
            Some(x) => Ok(x),
            None => {
                let mut msg = String::from_str("bad ");
                msg.append(name);
                msg.append(": ");
                msg.append(v.as_str());
                Err(msg)
            },
        },
    }
}

} // verus!
