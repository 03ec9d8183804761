use vstd::prelude::*;

use crate::text::{decimal, push_decimal, push_str};

verus! {

/// The decimal numeral of `n`, with a minus sign where it is negative.
pub open spec fn signed_decimal(n: int) -> Seq<char> {
    if n < 0 {
        "-"@ + decimal((-n) as nat)
    } else {
        decimal(n as nat)
    }
}

/// The delimiter of a multiline action output, made unique by the time of the
/// run in nanoseconds.
pub open spec fn output_delimiter(nanos: int) -> Seq<char> {
    "recent_merged_pr_"@ + signed_decimal(nanos)
}

/// An action output in the multiline form of the `GITHUB_OUTPUT` file.
pub open spec fn action_output_spec(name: Seq<char>, nanos: int, value: Seq<char>) -> Seq<char> {
    name + "<<"@ + output_delimiter(nanos) + "\n"@ + value + "\n"@ + output_delimiter(nanos)
        + "\n"@
}

/// Appends the delimiter of a multiline output.
fn push_delimiter(s: &mut String, nanos: i64)
    ensures
        final(s)@ == old(s)@ + output_delimiter(nanos as int),
{
    push_str(s, "recent_merged_pr_");
    if nanos < 0 {
        push_str(s, "-");
        let magnitude: u64 = if nanos == i64::MIN {
            9223372036854775808u64
        } else {
            (-nanos) as u64
        };
        push_decimal(s, magnitude);
    } else {
        push_decimal(s, nanos as u64);
    }
    assert(s@ =~= old(s)@ + output_delimiter(nanos as int));
}

/// The text of the action output `name` holding `value`, delimited by a marker
/// made from `nanos`, the time of the run in nanoseconds (0 where unknown).
pub fn action_output_text(name: &str, nanos: i64, value: &str) -> (r: String)
    ensures
        r@ == action_output_spec(name@, nanos as int, value@),
{
    let mut r = String::new();
    push_str(&mut r, name);
    push_str(&mut r, "<<");
    push_delimiter(&mut r, nanos);
    push_str(&mut r, "\n");
    push_str(&mut r, value);
    push_str(&mut r, "\n");
    push_delimiter(&mut r, nanos);
    push_str(&mut r, "\n");
    r
}

} // verus!
