//! Where staged files come from and go to.
use crate::text::{join_path, path_join};
use vstd::prelude::*;

verus! {

/// The build profile directory: `debug` or `release`.
pub open spec fn profile_dir(debug: bool) -> Seq<char> {
    if debug {
        "debug"@
    } else {
        "release"@
    }
}

/// Where `cargo` puts a binary: `target/<triple>/<profile>/<name>`.
pub fn binary_source_path(binary_name: &str, target_triple: &str, debug: bool) -> (r: String)
    ensures
        r@ == path_join(
            path_join(path_join("target"@, target_triple@), profile_dir(debug)),
            binary_name@,
        ),
{
    let profile = if debug {
        "debug"
    } else {
        "release"
    };
    let a = join_path("target", target_triple);
    let b = join_path(a.as_str(), profile);
    join_path(b.as_str(), binary_name)
}

/// Where a binary goes inside the package: `usr/bin/<name>`.
pub fn binary_dest_path(binary_name: &str) -> (r: String)
    ensures
        r@ == path_join("usr/bin"@, binary_name@),
{
    join_path("usr/bin", binary_name)
}

/// An octal digit.
pub open spec fn is_octal_digit(c: char) -> bool {
    '0' <= c && c <= '7'
}

/// The value of a run of octal digits.
pub open spec fn octal_value(d: Seq<char>) -> int
    decreases d.len(),
{
    if d.len() == 0 {
        0
    } else {
        octal_value(d.drop_last()) * 8 + (d.last() as int - '0' as int)
    }
}

/// The digits of a number: the text without one leading `'+'`.
pub open spec fn unsigned_digits(s: Seq<char>) -> Seq<char> {
    if s.len() > 0 && s[0] == '+' {
        s.drop_first()
    } else {
        s
    }
}

/// The mode that `u32::from_str_radix(s, 8)` parses: an optional `'+'`, then
/// at least one octal digit, with a value that fits in a `u32`.
pub open spec fn octal_mode(s: Seq<char>) -> Option<u32> {
    let d = unsigned_digits(s);
    if d.len() > 0 && (forall|i: int| 0 <= i < d.len() ==> is_octal_digit(#[trigger] d[i]))
        && octal_value(d) <= u32::MAX {
        Some(octal_value(d) as u32)
    } else {
        None
    }
}

proof fn lemma_octal_value_grows(d: Seq<char>, i: int)
    requires
        0 <= i <= d.len(),
        forall|k: int| 0 <= k < d.len() ==> is_octal_digit(#[trigger] d[k]),
    ensures
        0 <= octal_value(d.take(i)) <= octal_value(d),
    decreases d.len() - i,
{
    if i < d.len() {
        lemma_octal_value_grows(d, i + 1);
        assert(d.take(i + 1).drop_last() =~= d.take(i));
        assert(d.take(i + 1).last() == d[i]);
    } else {
        assert(d.take(i) =~= d);
    }
    lemma_octal_value_nonneg(d.take(i));
}

proof fn lemma_octal_value_nonneg(d: Seq<char>)
    requires
        forall|k: int| 0 <= k < d.len() ==> is_octal_digit(#[trigger] d[k]),
    ensures
        octal_value(d) >= 0,
    decreases d.len(),
{
    if d.len() > 0 {
        assert(is_octal_digit(d[d.len() - 1]));
        lemma_octal_value_nonneg(d.drop_last());
    }
}

/// Parses an octal file mode (such as `"644"`), as `u32::from_str_radix(s, 8)`
/// does.
pub fn parse_mode(s: &str) -> (r: Option<u32>)
    ensures
        r == octal_mode(s@),
{
    let n = s.unicode_len();
    let start: usize = if n > 0 && s.get_char(0) == '+' {
        1
    } else {
        0
    };
    let ghost d = unsigned_digits(s@);
    proof {
        assert(d =~= s@.subrange(start as int, n as int));
    }
    if start == n {
        return None;
    }
    let mut value: u64 = 0;
    let mut i: usize = start;
    while i < n
        invariant
            n == s@.len(),
            start <= i <= n,
            d == s@.subrange(start as int, n as int),
            d == unsigned_digits(s@),
            forall|k: int| 0 <= k < i - start ==> is_octal_digit(#[trigger] d[k]),
            value == octal_value(d.take(i - start)),
            value <= u32::MAX,
        decreases n - i,
    {
        let c = s.get_char(i);
        proof {
            assert(d[i - start] == c);
        }
        if !('0' <= c && c <= '7') {
            proof {
                assert(!is_octal_digit(d[i - start]));
            }
            return None;
        }
        let digit = (c as u32 - '0' as u32) as u64;
        proof {
            assert(d.take(i - start + 1).drop_last() =~= d.take(i - start));
            assert(d.take(i - start + 1).last() == c);
        }
        value = value * 8 + digit;
        proof {
            assert(octal_value(d.take(i - start + 1)) == octal_value(d.take(i - start)) * 8 + (c as int
                - '0' as int));
            assert(value == octal_value(d.take(i - start + 1)));
        }
        if value > 0xFFFF_FFFF {
            proof {
                let ghost j = i - start + 1;
                if forall|k: int| 0 <= k < d.len() ==> is_octal_digit(#[trigger] d[k]) {
                    lemma_octal_value_grows(d, j);
                }
            }
            return None;
        }
        i = i + 1;
    }
    proof {
        assert(d.take(i - start) =~= d);
    }
    Some(value as u32)
}

} // verus!
