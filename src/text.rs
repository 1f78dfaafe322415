use vstd::prelude::*;
use vstd::string::StringExecFns;

verus! {

/// The quoted, escaped text that `Debug` writes for a string.
pub uninterp spec fn debug_text_of(s: Seq<char>) -> Seq<char>;

/// Relies on `<str as Debug>::fmt`: the quoted, escaped text depends on the
/// string alone.
#[verifier::external_body]
fn debug_text(s: &str) -> (r: String)
    ensures
        r@ == debug_text_of(s@),
{
    format!("{:?}", s)
}

/// The decimal digits of a number, most significant first.
pub open spec fn decimal_of(n: nat) -> Seq<char>
    decreases n,
{
    if n < 10 {
        seq![digit_of(n)]
    } else {
        decimal_of(n / 10).push(digit_of(n % 10))
    }
}

pub open spec fn digit_of(d: nat) -> char {
    if d == 0 { '0' } else if d == 1 { '1' } else if d == 2 { '2' } else if d == 3 { '3' }
    else if d == 4 { '4' } else if d == 5 { '5' } else if d == 6 { '6' } else if d == 7 { '7' }
    else if d == 8 { '8' } else { '9' }
}

/// The one-character text of a decimal digit.
fn digit_text(d: u64) -> (r: &'static str)
    requires
        d < 10,
    ensures
        r@ == seq![digit_of(d as nat)],
{
    if d == 0 {
        proof { reveal_strlit("0"); }
        "0"
    } else if d == 1 {
        proof { reveal_strlit("1"); }
        "1"
    } else if d == 2 {
        proof { reveal_strlit("2"); }
        "2"
    } else if d == 3 {
        proof { reveal_strlit("3"); }
        "3"
    } else if d == 4 {
        proof { reveal_strlit("4"); }
        "4"
    } else if d == 5 {
        proof { reveal_strlit("5"); }
        "5"
    } else if d == 6 {
        proof { reveal_strlit("6"); }
        "6"
    } else if d == 7 {
        proof { reveal_strlit("7"); }
        "7"
    } else if d == 8 {
        proof { reveal_strlit("8"); }
        "8"
    } else {
        proof { reveal_strlit("9"); }
        "9"
    }
}

/// Appends the decimal digits of `n`.
pub(crate) fn push_decimal(out: &mut String, n: u64)
    ensures
        final(out)@ == old(out)@ + decimal_of(n as nat),
    decreases n,
{
    let ghost start = out@;
    if n >= 10 {
        push_decimal(out, n / 10);
    }
    out.append(digit_text(n % 10));
    proof {
        if n >= 10 {
            assert(out@ =~= start + decimal_of(n as nat));
        } else {
            assert(out@ =~= start + decimal_of(n as nat));
        }
    }
}

/// The strings of a list in `Debug` form, separated by ", ".
pub open spec fn joined_debug(items: Seq<Seq<char>>) -> Seq<char>
    decreases items.len(),
{
    if items.len() == 0 {
        Seq::empty()
    } else if items.len() == 1 {
        debug_text_of(items[0])
    } else {
        joined_debug(items.drop_last()) + ", "@ + debug_text_of(items.last())
    }
}

/// A list of strings in `Debug` form: `["a", "b"]`.
pub open spec fn debug_list_of(items: Seq<Seq<char>>) -> Seq<char> {
    "["@ + joined_debug(items) + "]"@
}

/// An optional string in `Debug` form: `None` or `Some("a")`.
pub open spec fn debug_option_of(o: Option<Seq<char>>) -> Seq<char> {
    match o {
        Some(s) => "Some("@ + debug_text_of(s) + ")"@,
        None => "None"@,
    }
}

/// Appends the `Debug` form of a list of strings.
pub(crate) fn push_debug_list(out: &mut String, items: &Vec<String>)
    ensures
        final(out)@ == old(out)@ + debug_list_of(items.deep_view()),
{
    let ghost start = out@;
    out.append("[");
    let mut i: usize = 0;
    while i < items.len()
        invariant
            i <= items.len(),
            out@ == start + "["@ + joined_debug(items.deep_view().take(i as int)),
        decreases items.len() - i,
    {
        let ghost prefix = items.deep_view().take(i as int);
        if i > 0 {
            out.append(", ");
        }
        let d = debug_text(items[i].as_str());
        out.append(d.as_str());
        i = i + 1;
        proof {
            let now = items.deep_view().take(i as int);
            assert(now.drop_last() =~= prefix);
            if i == 1 {
                assert(prefix =~= Seq::<Seq<char>>::empty());
            }
        }
    }
    out.append("]");
    proof {
        assert(items.deep_view().take(items.len() as int) =~= items.deep_view());
    }
}

/// Appends the `Debug` form of an optional string.
pub(crate) fn push_debug_option(out: &mut String, o: &Option<String>)
    ensures
        final(out)@ == old(out)@ + debug_option_of(match o {
            Some(s) => Some(s@),
            None => None,
        }),
{
    match o {
        Some(s) => {
            out.append("Some(");
            let d = debug_text(s.as_str());
            out.append(d.as_str());
            out.append(")");
        },
        None => {
            out.append("None");
        },
    }
}

} // verus!
