//! The short-scale names of the powers of one thousand.

use vstd::prelude::*;

verus! {

/// The lowest scale that has a name: `1000^-3`.
pub const MIN_SCALE: i32 = -3;

/// The highest scale that has a name: `1000^51`.
pub const MAX_SCALE: i32 = 51;

/// The names of the scales up to `1000^10`: the metric prefixes below one,
/// no name for one, then "k" and the names of the first nine -illions.
pub open spec fn plain_term(scale: int) -> Seq<char> {
    if scale == -3 {
        "n"@
    } else if scale == -2 {
        "µ"@
    } else if scale == -1 {
        "m"@
    } else if scale == 0 {
        ""@
    } else if scale == 1 {
        "k"@
    } else if scale == 2 {
        "M"@
    } else if scale == 3 {
        "B"@
    } else if scale == 4 {
        "T"@
    } else if scale == 5 {
        "Qa"@
    } else if scale == 6 {
        "Qi"@
    } else if scale == 7 {
        "Sx"@
    } else if scale == 8 {
        "Sp"@
    } else if scale == 9 {
        "Oc"@
    } else {
        "No"@
    }
}

/// The Latin prefix that counts the units within a decade of -illions.
pub open spec fn unit_prefix(unit: int) -> Seq<char> {
    if unit == 0 {
        ""@
    } else if unit == 1 {
        "U"@
    } else if unit == 2 {
        "D"@
    } else if unit == 3 {
        "T"@
    } else if unit == 4 {
        "Qa"@
    } else if unit == 5 {
        "Qi"@
    } else if unit == 6 {
        "Sx"@
    } else if unit == 7 {
        "Sp"@
    } else if unit == 8 {
        "Oc"@
    } else {
        "N"@
    }
}

/// The name of the tenth, twentieth, ... fiftieth -illion.
pub open spec fn decade_name(decade: int) -> Seq<char> {
    if decade == 1 {
        "Dc"@
    } else if decade == 2 {
        "Vi"@
    } else if decade == 3 {
        "Tg"@
    } else if decade == 4 {
        "Qd"@
    } else {
        "Qq"@
    }
}

/// The name of `1000^scale`.
///
/// `1000^scale` is the -illion of number `scale - 1`. From the tenth -illion
/// on, a name is the prefix of the -illion's last digit before the name of
/// its decade: the twelfth is "D" before "Dc".
pub open spec fn scale_term(scale: int) -> Seq<char> {
    if scale <= 10 {
        plain_term(scale)
    } else {
        unit_prefix((scale - 1) % 10) + decade_name((scale - 1) / 10)
    }
}

/// Every literal that a name is made of, letter by letter.
proof fn reveal_terms()
    ensures
        "n"@ =~= seq!['n'],
        "µ"@ =~= seq!['µ'],
        "m"@ =~= seq!['m'],
        ""@ =~= Seq::<char>::empty(),
        "k"@ =~= seq!['k'],
        "M"@ =~= seq!['M'],
        "B"@ =~= seq!['B'],
        "T"@ =~= seq!['T'],
        "Qa"@ =~= seq!['Q', 'a'],
        "Qi"@ =~= seq!['Q', 'i'],
        "Sx"@ =~= seq!['S', 'x'],
        "Sp"@ =~= seq!['S', 'p'],
        "Oc"@ =~= seq!['O', 'c'],
        "No"@ =~= seq!['N', 'o'],
        "Dc"@ =~= seq!['D', 'c'],
        "UDc"@ =~= seq!['U', 'D', 'c'],
        "DDc"@ =~= seq!['D', 'D', 'c'],
        "TDc"@ =~= seq!['T', 'D', 'c'],
        "QaDc"@ =~= seq!['Q', 'a', 'D', 'c'],
        "QiDc"@ =~= seq!['Q', 'i', 'D', 'c'],
        "SxDc"@ =~= seq!['S', 'x', 'D', 'c'],
        "SpDc"@ =~= seq!['S', 'p', 'D', 'c'],
        "OcDc"@ =~= seq!['O', 'c', 'D', 'c'],
        "NDc"@ =~= seq!['N', 'D', 'c'],
        "Vi"@ =~= seq!['V', 'i'],
        "UVi"@ =~= seq!['U', 'V', 'i'],
        "DVi"@ =~= seq!['D', 'V', 'i'],
        "TVi"@ =~= seq!['T', 'V', 'i'],
        "QaVi"@ =~= seq!['Q', 'a', 'V', 'i'],
        "QiVi"@ =~= seq!['Q', 'i', 'V', 'i'],
        "SxVi"@ =~= seq!['S', 'x', 'V', 'i'],
        "SpVi"@ =~= seq!['S', 'p', 'V', 'i'],
        "OcVi"@ =~= seq!['O', 'c', 'V', 'i'],
        "NVi"@ =~= seq!['N', 'V', 'i'],
        "Tg"@ =~= seq!['T', 'g'],
        "UTg"@ =~= seq!['U', 'T', 'g'],
        "DTg"@ =~= seq!['D', 'T', 'g'],
        "TTg"@ =~= seq!['T', 'T', 'g'],
        "QaTg"@ =~= seq!['Q', 'a', 'T', 'g'],
        "QiTg"@ =~= seq!['Q', 'i', 'T', 'g'],
        "SxTg"@ =~= seq!['S', 'x', 'T', 'g'],
        "SpTg"@ =~= seq!['S', 'p', 'T', 'g'],
        "OcTg"@ =~= seq!['O', 'c', 'T', 'g'],
        "NTg"@ =~= seq!['N', 'T', 'g'],
        "Qd"@ =~= seq!['Q', 'd'],
        "UQd"@ =~= seq!['U', 'Q', 'd'],
        "DQd"@ =~= seq!['D', 'Q', 'd'],
        "TQd"@ =~= seq!['T', 'Q', 'd'],
        "QaQd"@ =~= seq!['Q', 'a', 'Q', 'd'],
        "QiQd"@ =~= seq!['Q', 'i', 'Q', 'd'],
        "SxQd"@ =~= seq!['S', 'x', 'Q', 'd'],
        "SpQd"@ =~= seq!['S', 'p', 'Q', 'd'],
        "OcQd"@ =~= seq!['O', 'c', 'Q', 'd'],
        "NQd"@ =~= seq!['N', 'Q', 'd'],
        "Qq"@ =~= seq!['Q', 'q'],
        "U"@ =~= seq!['U'],
        "D"@ =~= seq!['D'],
        "N"@ =~= seq!['N'],
{
    reveal_strlit("n");
    reveal_strlit("µ");
    reveal_strlit("m");
    reveal_strlit("");
    reveal_strlit("k");
    reveal_strlit("M");
    reveal_strlit("B");
    reveal_strlit("T");
    reveal_strlit("Qa");
    reveal_strlit("Qi");
    reveal_strlit("Sx");
    reveal_strlit("Sp");
    reveal_strlit("Oc");
    reveal_strlit("No");
    reveal_strlit("Dc");
    reveal_strlit("UDc");
    reveal_strlit("DDc");
    reveal_strlit("TDc");
    reveal_strlit("QaDc");
    reveal_strlit("QiDc");
    reveal_strlit("SxDc");
    reveal_strlit("SpDc");
    reveal_strlit("OcDc");
    reveal_strlit("NDc");
    reveal_strlit("Vi");
    reveal_strlit("UVi");
    reveal_strlit("DVi");
    reveal_strlit("TVi");
    reveal_strlit("QaVi");
    reveal_strlit("QiVi");
    reveal_strlit("SxVi");
    reveal_strlit("SpVi");
    reveal_strlit("OcVi");
    reveal_strlit("NVi");
    reveal_strlit("Tg");
    reveal_strlit("UTg");
    reveal_strlit("DTg");
    reveal_strlit("TTg");
    reveal_strlit("QaTg");
    reveal_strlit("QiTg");
    reveal_strlit("SxTg");
    reveal_strlit("SpTg");
    reveal_strlit("OcTg");
    reveal_strlit("NTg");
    reveal_strlit("Qd");
    reveal_strlit("UQd");
    reveal_strlit("DQd");
    reveal_strlit("TQd");
    reveal_strlit("QaQd");
    reveal_strlit("QiQd");
    reveal_strlit("SxQd");
    reveal_strlit("SpQd");
    reveal_strlit("OcQd");
    reveal_strlit("NQd");
    reveal_strlit("Qq");
    reveal_strlit("U");
    reveal_strlit("D");
    reveal_strlit("N");
}

/// The name of `1000^scale`, for the scales that have one.
pub fn short_scale_term(scale: i32) -> (term: &'static str)
    requires
        MIN_SCALE <= scale <= MAX_SCALE,
    ensures
        term@ == scale_term(scale as int),
{
    proof {
        reveal_terms();
    }
    let term: &'static str = match scale {
        -3 => "n",
        -2 => "µ",
        -1 => "m",
        0 => "",
        1 => "k",
        2 => "M",
        3 => "B",
        4 => "T",
        5 => "Qa",
        6 => "Qi",
        7 => "Sx",
        8 => "Sp",
        9 => "Oc",
        10 => "No",
        11 => "Dc",
        12 => "UDc",
        13 => "DDc",
        14 => "TDc",
        15 => "QaDc",
        16 => "QiDc",
        17 => "SxDc",
        18 => "SpDc",
        19 => "OcDc",
        20 => "NDc",
        21 => "Vi",
        22 => "UVi",
        23 => "DVi",
        24 => "TVi",
        25 => "QaVi",
        26 => "QiVi",
        27 => "SxVi",
        28 => "SpVi",
        29 => "OcVi",
        30 => "NVi",
        31 => "Tg",
        32 => "UTg",
        33 => "DTg",
        34 => "TTg",
        35 => "QaTg",
        36 => "QiTg",
        37 => "SxTg",
        38 => "SpTg",
        39 => "OcTg",
        40 => "NTg",
        41 => "Qd",
        42 => "UQd",
        43 => "DQd",
        44 => "TQd",
        45 => "QaQd",
        46 => "QiQd",
        47 => "SxQd",
        48 => "SpQd",
        49 => "OcQd",
        50 => "NQd",
        _ => "Qq",
    };
    assert(term@ =~= scale_term(scale as int));
    term
}

} // verus!
