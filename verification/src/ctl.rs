//! What the command-line client prints.

use vstd::prelude::*;
use crate::sizing;
use crate::text::{self, dec_i64, join3};

verus! {

/// A size as an operator reads it; a negative one in whole bytes.
pub open spec fn readable_size(n: i64) -> Seq<char> {
    if n < 1024 {
        text::dec_int(n as int) + " B"@
    } else {
        sizing::readable(n as u64)
    }
}

/// A size as an operator reads it.
pub fn human_bytes(n: i64) -> (r: String)
    ensures
        r@ == readable_size(n),
{
    if n < 1024 {
        dec_i64(n).concat(" B")
    } else {
        sizing::human(n as u64)
    }
}

/// What is printed after a file was compacted: the sizes before and after,
/// and what came back.
pub fn defrag_line(before: i64, after: i64) -> (r: String)
    requires
        i64::MIN <= before - after <= i64::MAX,
    ensures
        r@ == "defrag: "@ + readable_size(before) + " -> "@ + readable_size(after) + " ("@
            + readable_size(
            if before > after {
                (before - after) as i64
            } else {
                0
            },
        ) + " returned to the filesystem)"@,
{
    let back: i64 = if before > after {
        before - after
    } else {
        0
    };
    let mut s = join3("defrag: ", human_bytes(before).as_str(), " -> ");
    s.append(human_bytes(after).as_str());
    s.append(" (");
    s.append(human_bytes(back).as_str());
    s.append(" returned to the filesystem)");
    s
}

/// Texts with commas between them.
pub open spec fn commas(list: Seq<Seq<char>>) -> Seq<char>
    decreases list.len(),
{
    if list.len() == 0 {
        ""@
    } else if list.len() == 1 {
        list[0]
    } else {
        commas(list.drop_last()) + ", "@ + list.last()
    }
}

/// What is printed of the alarms that are raised.
pub fn alarms_line(errors: &Vec<String>) -> (r: String)
    ensures
        r@ == "alarms:       "@ + (if errors@.len() == 0 {
            "none"@
        } else {
            commas(crate::names::texts(errors@))
        }),
{
    if errors.len() == 0 {
        return String::from_str("alarms:       ").concat("none");
    }
    let ghost all = crate::names::texts(errors@);
    let mut s = errors[0].clone();
    let mut i: usize = 1;
    assert(all.take(1).len() == 1);
    assert(all.take(1)[0] == errors@[0]@);
    while i < errors.len()
        invariant
            1 <= i <= errors@.len(),
            all == crate::names::texts(errors@),
            s@ == commas(all.take(i as int)),
        decreases errors@.len() - i,
    {
        assert(all.take(i + 1).drop_last() =~= all.take(i as int));
        assert(all[i as int] == errors@[i as int]@);
        s.append(", ");
        s.append(errors[i].as_str());
        i += 1;
    }
    assert(all.take(i as int) =~= all);
    String::from_str("alarms:       ").concat(s.as_str())
}

/// A size below a kibibyte, a negative one among them, is shown in whole
/// bytes; any other as sizes are shown elsewhere.
pub proof fn law_small_sizes_are_whole_bytes(n: i64)
    ensures
        n < 1024 ==> readable_size(n) == text::dec_int(n as int) + " B"@,
        n >= 1024 ==> readable_size(n) == sizing::readable(n as u64),
{
}

/// Texts are joined with a comma and a blank between each two.
pub proof fn law_texts_are_joined_by_commas(list: Seq<Seq<char>>, x: Seq<char>)
    ensures
        commas(seq![]) == ""@,
        commas(seq![x]) == x,
        list.len() > 0 ==> commas(list.push(x)) == commas(list) + ", "@ + x,
{
    assert(list.push(x).drop_last() =~= list);
}

} // verus!
