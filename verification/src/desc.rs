//! Short descriptions of group and field positions, for messages.
use vstd::prelude::*;
use crate::error::digit_char;

verus! {

/// `prefix[i]` for the positions 1 to 9, `prefix[.]` beyond, nothing for 0.
pub open spec fn idx_desc(prefix: Seq<char>, idx: int) -> Seq<char> {
    if idx == 0 {
        Seq::empty()
    } else if idx <= 9 {
        prefix + seq!['[', digit_char(idx), ']']
    } else {
        prefix + seq!['[', '.', ']']
    }
}

pub fn group_idx_desc(idx: usize) -> (r: &'static str)
    ensures
        r@ == idx_desc(seq!['g', 'r', 'o', 'u', 'p'], idx as int),
{
    if idx == 0 {
        proof {
            reveal_strlit("");
        }
        assert(""@ =~= Seq::<char>::empty());
        ""
    } else if idx == 1 {
        proof {
            reveal_strlit("group[1]");
        }
        assert("group[1]"@ =~= idx_desc(seq!['g', 'r', 'o', 'u', 'p'], 1));
        "group[1]"
    } else if idx == 2 {
        proof {
            reveal_strlit("group[2]");
        }
        assert("group[2]"@ =~= idx_desc(seq!['g', 'r', 'o', 'u', 'p'], 2));
        "group[2]"
    } else if idx == 3 {
        proof {
            reveal_strlit("group[3]");
        }
        assert("group[3]"@ =~= idx_desc(seq!['g', 'r', 'o', 'u', 'p'], 3));
        "group[3]"
    } else if idx == 4 {
        proof {
            reveal_strlit("group[4]");
        }
        assert("group[4]"@ =~= idx_desc(seq!['g', 'r', 'o', 'u', 'p'], 4));
        "group[4]"
    } else if idx == 5 {
        proof {
            reveal_strlit("group[5]");
        }
        assert("group[5]"@ =~= idx_desc(seq!['g', 'r', 'o', 'u', 'p'], 5));
        "group[5]"
    } else if idx == 6 {
        proof {
            reveal_strlit("group[6]");
        }
        assert("group[6]"@ =~= idx_desc(seq!['g', 'r', 'o', 'u', 'p'], 6));
        "group[6]"
    } else if idx == 7 {
        proof {
            reveal_strlit("group[7]");
        }
        assert("group[7]"@ =~= idx_desc(seq!['g', 'r', 'o', 'u', 'p'], 7));
        "group[7]"
    } else if idx == 8 {
        proof {
            reveal_strlit("group[8]");
        }
        assert("group[8]"@ =~= idx_desc(seq!['g', 'r', 'o', 'u', 'p'], 8));
        "group[8]"
    } else if idx == 9 {
        proof {
            reveal_strlit("group[9]");
        }
        assert("group[9]"@ =~= idx_desc(seq!['g', 'r', 'o', 'u', 'p'], 9));
        "group[9]"
    } else {
        proof {
            reveal_strlit("group[.]");
        }
        assert("group[.]"@ =~= idx_desc(seq!['g', 'r', 'o', 'u', 'p'], idx as int));
        "group[.]"
    }
}

pub fn fpu_idx_desc(idx: usize) -> (r: &'static str)
    ensures
        r@ == idx_desc(seq!['f', 'i', 'e', 'l', 'd'], idx as int),
{
    if idx == 0 {
        proof {
            reveal_strlit("");
        }
        assert(""@ =~= Seq::<char>::empty());
        ""
    } else if idx == 1 {
        proof {
            reveal_strlit("field[1]");
        }
        assert("field[1]"@ =~= idx_desc(seq!['f', 'i', 'e', 'l', 'd'], 1));
        "field[1]"
    } else if idx == 2 {
        proof {
            reveal_strlit("field[2]");
        }
        assert("field[2]"@ =~= idx_desc(seq!['f', 'i', 'e', 'l', 'd'], 2));
        "field[2]"
    } else if idx == 3 {
        proof {
            reveal_strlit("field[3]");
        }
        assert("field[3]"@ =~= idx_desc(seq!['f', 'i', 'e', 'l', 'd'], 3));
        "field[3]"
    } else if idx == 4 {
        proof {
            reveal_strlit("field[4]");
        }
        assert("field[4]"@ =~= idx_desc(seq!['f', 'i', 'e', 'l', 'd'], 4));
        "field[4]"
    } else if idx == 5 {
        proof {
            reveal_strlit("field[5]");
        }
        assert("field[5]"@ =~= idx_desc(seq!['f', 'i', 'e', 'l', 'd'], 5));
        "field[5]"
    } else if idx == 6 {
        proof {
            reveal_strlit("field[6]");
        }
        assert("field[6]"@ =~= idx_desc(seq!['f', 'i', 'e', 'l', 'd'], 6));
        "field[6]"
    } else if idx == 7 {
        proof {
            reveal_strlit("field[7]");
        }
        assert("field[7]"@ =~= idx_desc(seq!['f', 'i', 'e', 'l', 'd'], 7));
        "field[7]"
    } else if idx == 8 {
        proof {
            reveal_strlit("field[8]");
        }
        assert("field[8]"@ =~= idx_desc(seq!['f', 'i', 'e', 'l', 'd'], 8));
        "field[8]"
    } else if idx == 9 {
        proof {
            reveal_strlit("field[9]");
        }
        assert("field[9]"@ =~= idx_desc(seq!['f', 'i', 'e', 'l', 'd'], 9));
        "field[9]"
    } else {
        proof {
            reveal_strlit("field[.]");
        }
        assert("field[.]"@ =~= idx_desc(seq!['f', 'i', 'e', 'l', 'd'], idx as int));
        "field[.]"
    }
}

} // verus!
