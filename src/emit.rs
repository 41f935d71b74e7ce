//! The Luau module that lists each icon's rectangle under its name.
use vstd::prelude::*;
use vstd::string::*;
use crate::layout::IconInfo;

verus! {

/// The character of the decimal digit `d`.
pub open spec fn digit_char(d: int) -> char {
    if d == 0 {
        '0'
    } else if d == 1 {
        '1'
    } else if d == 2 {
        '2'
    } else if d == 3 {
        '3'
    } else if d == 4 {
        '4'
    } else if d == 5 {
        '5'
    } else if d == 6 {
        '6'
    } else if d == 7 {
        '7'
    } else if d == 8 {
        '8'
    } else {
        '9'
    }
}

/// The decimal digits of `v`, most significant first, without leading zeros.
pub open spec fn decimal(v: nat) -> Seq<char>
    decreases v,
{
    if v < 10 {
        seq![digit_char(v as int)]
    } else {
        decimal(v / 10) + seq![digit_char((v % 10) as int)]
    }
}

/// The opening comment, stamped with `timestamp`, and the table's declaration.
pub open spec fn module_header(timestamp: Seq<char>) -> Seq<char> {
    "--[[ module generated from ssheet.rs :: generated at "@ + timestamp + " ]]\n\nlocal Icons = {}\n"@
}

/// The line that files one record under its name.
pub open spec fn module_entry(r: IconInfo) -> Seq<char> {
    "Icons['"@ + r.name@ + "'] = { x = "@ + decimal(r.x as nat) + ", y = "@ + decimal(r.y as nat)
        + ", width = "@ + decimal(r.width as nat) + ", height = "@ + decimal(r.height as nat)
        + " }\n"@
}

/// One line per record, in the records' order.
pub open spec fn module_entries(records: Seq<IconInfo>) -> Seq<char>
    decreases records.len(),
{
    if records.len() == 0 {
        Seq::empty()
    } else {
        module_entries(records.drop_last()) + module_entry(records.last())
    }
}

/// The closing line that hands the table back.
pub open spec fn module_trailer() -> Seq<char> {
    "\nreturn Icons\n"@
}

/// The whole module for `records`, stamped with `timestamp`.
pub open spec fn module_text(records: Seq<IconInfo>, timestamp: Seq<char>) -> Seq<char> {
    module_header(timestamp) + module_entries(records) + module_trailer()
}

/// The one-character text of the decimal digit `d`.
fn digit_text(d: u32) -> (r: &'static str)
    requires
        d < 10,
    ensures
        r@ == seq![digit_char(d as int)],
{
    let r = if d == 0 {
        "0"
    } else if d == 1 {
        "1"
    } else if d == 2 {
        "2"
    } else if d == 3 {
        "3"
    } else if d == 4 {
        "4"
    } else if d == 5 {
        "5"
    } else if d == 6 {
        "6"
    } else if d == 7 {
        "7"
    } else if d == 8 {
        "8"
    } else {
        "9"
    };
    proof {
        reveal_strlit("0");
        reveal_strlit("1");
        reveal_strlit("2");
        reveal_strlit("3");
        reveal_strlit("4");
        reveal_strlit("5");
        reveal_strlit("6");
        reveal_strlit("7");
        reveal_strlit("8");
        reveal_strlit("9");
    }
    assert(r@ =~= seq![digit_char(d as int)]);
    r
}

/// The decimal digits of `v`, with no sign and no leading zeros.
fn decimal_text(v: u32) -> (r: String)
    ensures
        r@ == decimal(v as nat),
    decreases v,
{
    if v < 10 {
        digit_text(v).to_string()
    } else {
        let mut s = decimal_text(v / 10);
        s.append(digit_text(v % 10));
        s
    }
}

fn push_entry(out: &mut String, r: &IconInfo)
    ensures
        final(out)@ == old(out)@ + module_entry(*r),
{
    out.append("Icons['");
    out.append(r.name.as_str());
    out.append("'] = { x = ");
    out.append(decimal_text(r.x).as_str());
    out.append(", y = ");
    out.append(decimal_text(r.y).as_str());
    out.append(", width = ");
    out.append(decimal_text(r.width).as_str());
    out.append(", height = ");
    out.append(decimal_text(r.height).as_str());
    out.append(" }\n");
    assert(final(out)@ =~= old(out)@ + module_entry(*r));
}

/// The Luau module text for `records`: a header comment with `timestamp`,
/// one `Icons['name'] = { x = .., y = .., width = .., height = .. }` line per
/// record in input order, and a closing `return Icons`.
pub fn luau_module(records: &Vec<IconInfo>, timestamp: &str) -> (r: String)
    ensures
        r@ == module_text(records@, timestamp@),
{
    let mut out = String::new();
    out.append("--[[ module generated from ssheet.rs :: generated at ");
    out.append(timestamp);
    out.append(" ]]\n\nlocal Icons = {}\n");
    assert(out@ =~= module_header(timestamp@) + module_entries(records@.subrange(0, 0)));
    let mut i: usize = 0;
    while i < records.len()
        invariant
            i <= records@.len(),
            out@ == module_header(timestamp@) + module_entries(records@.subrange(0, i as int)),
        decreases records@.len() - i,
    {
        push_entry(&mut out, &records[i]);
        assert(records@.subrange(0, i + 1).drop_last() =~= records@.subrange(0, i as int));
        assert(out@ =~= module_header(timestamp@) + module_entries(records@.subrange(0, i + 1)));
        i = i + 1;
    }
    out.append("\nreturn Icons\n");
    assert(records@.subrange(0, records@.len() as int) =~= records@);
    out
}

} // verus!
