//! The strokes of KiCad's own font, and the lengths that text takes up in it.
//!
//! The glyphs are the Basic Latin part of KiCad's Newstroke font, which is in the public domain
//! (CC0). A glyph is a string of letters that stand for numbers, by their distance from `R`: the
//! first two are the left and the right end of its advance, then come the corners of its
//! strokes, two letters each, and ` R` lifts the pen.

use crate::double::Double;
use crate::geometry::Point;
use crate::readers::TextAlign;
use vstd::prelude::*;

verus! {

/// The letters of a character's glyph; a character without one of its own is drawn as a
/// question mark.
pub open spec fn glyph_of(c: char) -> Seq<char> {
    match c {
        ' ' => "JZ"@,
        '!' => "MWRYSZR[QZRYR[ RRSQGRFSGRSRF"@,
        '"' => "JZNFNJ RVFVJ"@,
        '#' => "H]LM[M RRDL_ RYVJV RS_YD"@,
        '$' => "H\\LZO[T[VZWYXWXUWSVRTQPPNOMNLLLJMHNGPFUFXG RRCR^"@,
        '%' => "F^J[ZF RMFOGPIOKMLKKJIKGMF RYZZXYVWUUVTXUZW[YZ"@,
        '&' => "E_[[Z[XZUWPQNNMKMINGPFQFSGTITJSLRMLQKRJTJWKYLZN[Q[SZTYWUXRXP"@,
        '\'' => "MWSFQJ"@,
        '(' => "KYVcUbS_R]QZPUPQQLRISGUDVC"@,
        ')' => "KYNcObQ_R]SZTUTQSLRIQGODNC"@,
        '*' => "JZRFRK RMIRKWI ROORKUO"@,
        '+' => "E_JSZS RR[RK"@,
        ',' => "MWSZS[R]Q^"@,
        '-' => "E_JSZS"@,
        '.' => "MWRYSZR[QZRYR["@,
        '/' => "G][EI`"@,
        '0' => "H\\QFSFUGVHWJXNXSWWVYUZS[Q[OZNYMWLSLNMJNHOGQF"@,
        '1' => "H\\X[L[ RR[RFPINKLL"@,
        '2' => "H\\LHMGOFTFVGWHXJXLWOK[X["@,
        '3' => "H\\KFXFQNTNVOWPXRXWWYVZT[N[LZKY"@,
        '4' => "H\\VMV[ RQELTYT"@,
        '5' => "H\\WFMFLPMOONTNVOWPXRXWWYVZT[O[MZLY"@,
        '6' => "H\\VFRFPGOHMKLOLWMYNZP[T[VZWYXWXRWPVOTNPNNOMPLR"@,
        '7' => "H\\KFYFP["@,
        '8' => "H\\PONNMMLKLJMHNGPFTFVGWHXJXKWMVNTOPONPMQLSLWMYNZP[T[VZWYXWXSWQVPTO"@,
        '9' => "H\\N[R[TZUYWVXRXJWHVGTFPFNGMHLJLOMQNRPSTSVRWQXO"@,
        ':' => "MWRYSZR[QZRYR[ RRNSORPQORNRP"@,
        ';' => "MWSZS[R]Q^ RRNSORPQORNRP"@,
        '<' => "E_ZMJSZY"@,
        '=' => "E_JPZP RZVJV"@,
        '>' => "E_JMZSJY"@,
        '@' => "D_VQUPSOQOOPNQMSMUNWOXQYSYUXVW RVOVWWXXXZW[U[PYMVKRJNKKMIPHTIXK[N]R^V]Y["@,
        'A' => "I[MUWU RK[RFY["@,
        'B' => "G\\SPVQWRXTXWWYVZT[L[LFSFUGVHWJWLVNUOSPLP"@,
        'C' => "F[WYVZS[Q[NZLXKVJRJOKKLINGQFSFVGWH"@,
        'D' => "G\\L[LFQFTGVIWKXOXRWVVXTZQ[L["@,
        'E' => "H[MPTP RW[M[MFWF"@,
        'F' => "HZTPMP RM[MFWF"@,
        'G' => "F[VGTFQFNGLIKKJOJRKVLXNZQ[S[VZWYWRSR"@,
        'H' => "G]L[LF RLPXP RX[XF"@,
        'I' => "MWR[RF"@,
        'J' => "JZUFUUTXRZO[M["@,
        'K' => "G\\L[LF RX[OO RXFLR"@,
        'L' => "HYW[M[MF"@,
        'M' => "F^K[KFRUYFY["@,
        'N' => "G]L[LFX[XF"@,
        'O' => "G]PFTFVGXIYMYTXXVZT[P[NZLXKTKMLINGPF"@,
        'P' => "G\\L[LFTFVGWHXJXMWOVPTQLQ"@,
        'Q' => "G]Z]X\\VZSWQVOV RP[NZLXKTKMLINGPFTFVGXIYMYTXXVZT[P["@,
        'R' => "G\\X[QQ RL[LFTFVGWHXJXMWOVPTQLQ"@,
        'S' => "H\\LZO[T[VZWYXWXUWSVRTQPPNOMNLLLJMHNGPFUFXG"@,
        'T' => "JZLFXF RR[RF"@,
        'U' => "G]LFLWMYNZP[T[VZWYXWXF"@,
        'V' => "I[KFR[YF"@,
        'W' => "F^IFN[RLV[[F"@,
        'X' => "H\\KFY[ RYFK["@,
        'Y' => "I[RQR[ RKFRQYF"@,
        'Z' => "H\\KFYFK[Y["@,
        '[' => "KYVbQbQDVD"@,
        '\\' => "KYID[_"@,
        ']' => "KYNbSbSDND"@,
        '^' => "LXNHREVH"@,
        '_' => "JZJ]Z]"@,
        '`' => "NVPESH"@,
        'a' => "I\\W[WPVNTMPMNN RWZU[P[NZMXMVNTPSUSWR"@,
        'b' => "H[M[MF RMNOMSMUNVOWQWWVYUZS[O[MZ"@,
        'c' => "HZVZT[P[NZMYLWLQMONNPMTMVN"@,
        'd' => "I\\W[WF RWZU[Q[OZNYMWMQNOONQMUMWN"@,
        'e' => "I[VZT[P[NZMXMPNNPMTMVNWPWRMT"@,
        'f' => "MYOMWM RR[RISGUFWF"@,
        'g' => "I\\WMW^V`UaSbPbNa RWZU[Q[OZNYMWMQNOONQMUMWN"@,
        'h' => "H[M[MF RV[VPUNSMPMNNMO"@,
        'i' => "MWR[RM RRFQGRHSGRFRH"@,
        'j' => "MWRMR_QaObNb RRFQGRHSGRFRH"@,
        'k' => "IZN[NF RPSV[ RVMNU"@,
        'l' => "MXU[SZRXRF"@,
        'm' => "D`I[IM RIOJNLMOMQNRPR[ RRPSNUMXMZN[P[["@,
        'n' => "I\\NMN[ RNOONQMTMVNWPW["@,
        'o' => "H[P[NZMYLWLQMONNPMSMUNVOWQWWVYUZS[P["@,
        'p' => "H[MMMb RMNOMSMUNVOWQWWVYUZS[O[MZ"@,
        'q' => "I\\WMWb RWZU[Q[OZNYMWMQNOONQMUMWN"@,
        'r' => "KXP[PM RPQQORNTMVM"@,
        's' => "J[NZP[T[VZWXWWVUTTQTOSNQNPONQMTMVN"@,
        't' => "MYOMWM RRFRXSZU[W["@,
        'u' => "H[VMV[ RMMMXNZP[S[UZVY"@,
        'v' => "JZMMR[WM"@,
        'w' => "G]JMN[RQV[ZM"@,
        'x' => "IZL[WM RLMW["@,
        'y' => "JZMMR[ RWMR[P`OaMb"@,
        'z' => "IZLMWML[W["@,
        '{' => "KYVcUcSbR`RVQTOSQRRPRFSDUCVC"@,
        '|' => "H\\RbRD"@,
        '}' => "KYNcOcQbR`RVSTUSSRRPRFQDOCNC"@,
        '~' => "KZMSNRPQTSVRWQ"@,
        '\u{7f}' => "F^K[KFYFY[K["@,
        _ => "I[QYRZQ[PZQYQ[ RMGOFTFVGWIWKVMUNSORPQRQS"@,
    }
}

/// The letters of a character's glyph; a character without one of its own is drawn as a
/// question mark.
pub fn glyph(c: char) -> (r: &'static str)
    ensures
        r@ == glyph_of(c),
{
    match c {
        ' ' => "JZ",
        '!' => "MWRYSZR[QZRYR[ RRSQGRFSGRSRF",
        '"' => "JZNFNJ RVFVJ",
        '#' => "H]LM[M RRDL_ RYVJV RS_YD",
        '$' => "H\\LZO[T[VZWYXWXUWSVRTQPPNOMNLLLJMHNGPFUFXG RRCR^",
        '%' => "F^J[ZF RMFOGPIOKMLKKJIKGMF RYZZXYVWUUVTXUZW[YZ",
        '&' => "E_[[Z[XZUWPQNNMKMINGPFQFSGTITJSLRMLQKRJTJWKYLZN[Q[SZTYWUXRXP",
        '\'' => "MWSFQJ",
        '(' => "KYVcUbS_R]QZPUPQQLRISGUDVC",
        ')' => "KYNcObQ_R]SZTUTQSLRIQGODNC",
        '*' => "JZRFRK RMIRKWI ROORKUO",
        '+' => "E_JSZS RR[RK",
        ',' => "MWSZS[R]Q^",
        '-' => "E_JSZS",
        '.' => "MWRYSZR[QZRYR[",
        '/' => "G][EI`",
        '0' => "H\\QFSFUGVHWJXNXSWWVYUZS[Q[OZNYMWLSLNMJNHOGQF",
        '1' => "H\\X[L[ RR[RFPINKLL",
        '2' => "H\\LHMGOFTFVGWHXJXLWOK[X[",
        '3' => "H\\KFXFQNTNVOWPXRXWWYVZT[N[LZKY",
        '4' => "H\\VMV[ RQELTYT",
        '5' => "H\\WFMFLPMOONTNVOWPXRXWWYVZT[O[MZLY",
        '6' => "H\\VFRFPGOHMKLOLWMYNZP[T[VZWYXWXRWPVOTNPNNOMPLR",
        '7' => "H\\KFYFP[",
        '8' => "H\\PONNMMLKLJMHNGPFTFVGWHXJXKWMVNTOPONPMQLSLWMYNZP[T[VZWYXWXSWQVPTO",
        '9' => "H\\N[R[TZUYWVXRXJWHVGTFPFNGMHLJLOMQNRPSTSVRWQXO",
        ':' => "MWRYSZR[QZRYR[ RRNSORPQORNRP",
        ';' => "MWSZS[R]Q^ RRNSORPQORNRP",
        '<' => "E_ZMJSZY",
        '=' => "E_JPZP RZVJV",
        '>' => "E_JMZSJY",
        '@' => "D_VQUPSOQOOPNQMSMUNWOXQYSYUXVW RVOVWWXXXZW[U[PYMVKRJNKKMIPHTIXK[N]R^V]Y[",
        'A' => "I[MUWU RK[RFY[",
        'B' => "G\\SPVQWRXTXWWYVZT[L[LFSFUGVHWJWLVNUOSPLP",
        'C' => "F[WYVZS[Q[NZLXKVJRJOKKLINGQFSFVGWH",
        'D' => "G\\L[LFQFTGVIWKXOXRWVVXTZQ[L[",
        'E' => "H[MPTP RW[M[MFWF",
        'F' => "HZTPMP RM[MFWF",
        'G' => "F[VGTFQFNGLIKKJOJRKVLXNZQ[S[VZWYWRSR",
        'H' => "G]L[LF RLPXP RX[XF",
        'I' => "MWR[RF",
        'J' => "JZUFUUTXRZO[M[",
        'K' => "G\\L[LF RX[OO RXFLR",
        'L' => "HYW[M[MF",
        'M' => "F^K[KFRUYFY[",
        'N' => "G]L[LFX[XF",
        'O' => "G]PFTFVGXIYMYTXXVZT[P[NZLXKTKMLINGPF",
        'P' => "G\\L[LFTFVGWHXJXMWOVPTQLQ",
        'Q' => "G]Z]X\\VZSWQVOV RP[NZLXKTKMLINGPFTFVGXIYMYTXXVZT[P[",
        'R' => "G\\X[QQ RL[LFTFVGWHXJXMWOVPTQLQ",
        'S' => "H\\LZO[T[VZWYXWXUWSVRTQPPNOMNLLLJMHNGPFUFXG",
        'T' => "JZLFXF RR[RF",
        'U' => "G]LFLWMYNZP[T[VZWYXWXF",
        'V' => "I[KFR[YF",
        'W' => "F^IFN[RLV[[F",
        'X' => "H\\KFY[ RYFK[",
        'Y' => "I[RQR[ RKFRQYF",
        'Z' => "H\\KFYFK[Y[",
        '[' => "KYVbQbQDVD",
        '\\' => "KYID[_",
        ']' => "KYNbSbSDND",
        '^' => "LXNHREVH",
        '_' => "JZJ]Z]",
        '`' => "NVPESH",
        'a' => "I\\W[WPVNTMPMNN RWZU[P[NZMXMVNTPSUSWR",
        'b' => "H[M[MF RMNOMSMUNVOWQWWVYUZS[O[MZ",
        'c' => "HZVZT[P[NZMYLWLQMONNPMTMVN",
        'd' => "I\\W[WF RWZU[Q[OZNYMWMQNOONQMUMWN",
        'e' => "I[VZT[P[NZMXMPNNPMTMVNWPWRMT",
        'f' => "MYOMWM RR[RISGUFWF",
        'g' => "I\\WMW^V`UaSbPbNa RWZU[Q[OZNYMWMQNOONQMUMWN",
        'h' => "H[M[MF RV[VPUNSMPMNNMO",
        'i' => "MWR[RM RRFQGRHSGRFRH",
        'j' => "MWRMR_QaObNb RRFQGRHSGRFRH",
        'k' => "IZN[NF RPSV[ RVMNU",
        'l' => "MXU[SZRXRF",
        'm' => "D`I[IM RIOJNLMOMQNRPR[ RRPSNUMXMZN[P[[",
        'n' => "I\\NMN[ RNOONQMTMVNWPW[",
        'o' => "H[P[NZMYLWLQMONNPMSMUNVOWQWWVYUZS[P[",
        'p' => "H[MMMb RMNOMSMUNVOWQWWVYUZS[O[MZ",
        'q' => "I\\WMWb RWZU[Q[OZNYMWMQNOONQMUMWN",
        'r' => "KXP[PM RPQQORNTMVM",
        's' => "J[NZP[T[VZWXWWVUTTQTOSNQNPONQMTMVN",
        't' => "MYOMWM RRFRXSZU[W[",
        'u' => "H[VMV[ RMMMXNZP[S[UZVY",
        'v' => "JZMMR[WM",
        'w' => "G]JMN[RQV[ZM",
        'x' => "IZL[WM RLMW[",
        'y' => "JZMMR[ RWMR[P`OaMb",
        'z' => "IZLMWML[W[",
        '{' => "KYVcUcSbR`RVQTOSQRRPRFSDUCVC",
        '|' => "H\\RbRD",
        '}' => "KYNcOcQbR`RVSTUSSRRPRFQDOCNC",
        '~' => "KZMSNRPQTSVRWQ",
        '\u{7f}' => "F^K[KFYFY[K[",
        _ => "I[QYRZQ[PZQYQ[ RMGOFTFVGWIWKVMUNSORPQRQS",
    }
}

/// Every glyph begins with the two ends of its advance.
pub proof fn glyphs_have_an_advance(c: char)
    ensures
        glyph_of(c).len() >= 2,
{
    match c {
        ' ' => reveal_strlit("JZ"),
        '!' => reveal_strlit("MWRYSZR[QZRYR[ RRSQGRFSGRSRF"),
        '"' => reveal_strlit("JZNFNJ RVFVJ"),
        '#' => reveal_strlit("H]LM[M RRDL_ RYVJV RS_YD"),
        '$' => reveal_strlit("H\\LZO[T[VZWYXWXUWSVRTQPPNOMNLLLJMHNGPFUFXG RRCR^"),
        '%' => reveal_strlit("F^J[ZF RMFOGPIOKMLKKJIKGMF RYZZXYVWUUVTXUZW[YZ"),
        '&' => reveal_strlit("E_[[Z[XZUWPQNNMKMINGPFQFSGTITJSLRMLQKRJTJWKYLZN[Q[SZTYWUXRXP"),
        '\'' => reveal_strlit("MWSFQJ"),
        '(' => reveal_strlit("KYVcUbS_R]QZPUPQQLRISGUDVC"),
        ')' => reveal_strlit("KYNcObQ_R]SZTUTQSLRIQGODNC"),
        '*' => reveal_strlit("JZRFRK RMIRKWI ROORKUO"),
        '+' => reveal_strlit("E_JSZS RR[RK"),
        ',' => reveal_strlit("MWSZS[R]Q^"),
        '-' => reveal_strlit("E_JSZS"),
        '.' => reveal_strlit("MWRYSZR[QZRYR["),
        '/' => reveal_strlit("G][EI`"),
        '0' => reveal_strlit("H\\QFSFUGVHWJXNXSWWVYUZS[Q[OZNYMWLSLNMJNHOGQF"),
        '1' => reveal_strlit("H\\X[L[ RR[RFPINKLL"),
        '2' => reveal_strlit("H\\LHMGOFTFVGWHXJXLWOK[X["),
        '3' => reveal_strlit("H\\KFXFQNTNVOWPXRXWWYVZT[N[LZKY"),
        '4' => reveal_strlit("H\\VMV[ RQELTYT"),
        '5' => reveal_strlit("H\\WFMFLPMOONTNVOWPXRXWWYVZT[O[MZLY"),
        '6' => reveal_strlit("H\\VFRFPGOHMKLOLWMYNZP[T[VZWYXWXRWPVOTNPNNOMPLR"),
        '7' => reveal_strlit("H\\KFYFP["),
        '8' => reveal_strlit("H\\PONNMMLKLJMHNGPFTFVGWHXJXKWMVNTOPONPMQLSLWMYNZP[T[VZWYXWXSWQVPTO"),
        '9' => reveal_strlit("H\\N[R[TZUYWVXRXJWHVGTFPFNGMHLJLOMQNRPSTSVRWQXO"),
        ':' => reveal_strlit("MWRYSZR[QZRYR[ RRNSORPQORNRP"),
        ';' => reveal_strlit("MWSZS[R]Q^ RRNSORPQORNRP"),
        '<' => reveal_strlit("E_ZMJSZY"),
        '=' => reveal_strlit("E_JPZP RZVJV"),
        '>' => reveal_strlit("E_JMZSJY"),
        '@' => reveal_strlit("D_VQUPSOQOOPNQMSMUNWOXQYSYUXVW RVOVWWXXXZW[U[PYMVKRJNKKMIPHTIXK[N]R^V]Y["),
        'A' => reveal_strlit("I[MUWU RK[RFY["),
        'B' => reveal_strlit("G\\SPVQWRXTXWWYVZT[L[LFSFUGVHWJWLVNUOSPLP"),
        'C' => reveal_strlit("F[WYVZS[Q[NZLXKVJRJOKKLINGQFSFVGWH"),
        'D' => reveal_strlit("G\\L[LFQFTGVIWKXOXRWVVXTZQ[L["),
        'E' => reveal_strlit("H[MPTP RW[M[MFWF"),
        'F' => reveal_strlit("HZTPMP RM[MFWF"),
        'G' => reveal_strlit("F[VGTFQFNGLIKKJOJRKVLXNZQ[S[VZWYWRSR"),
        'H' => reveal_strlit("G]L[LF RLPXP RX[XF"),
        'I' => reveal_strlit("MWR[RF"),
        'J' => reveal_strlit("JZUFUUTXRZO[M["),
        'K' => reveal_strlit("G\\L[LF RX[OO RXFLR"),
        'L' => reveal_strlit("HYW[M[MF"),
        'M' => reveal_strlit("F^K[KFRUYFY["),
        'N' => reveal_strlit("G]L[LFX[XF"),
        'O' => reveal_strlit("G]PFTFVGXIYMYTXXVZT[P[NZLXKTKMLINGPF"),
        'P' => reveal_strlit("G\\L[LFTFVGWHXJXMWOVPTQLQ"),
        'Q' => reveal_strlit("G]Z]X\\VZSWQVOV RP[NZLXKTKMLINGPFTFVGXIYMYTXXVZT[P["),
        'R' => reveal_strlit("G\\X[QQ RL[LFTFVGWHXJXMWOVPTQLQ"),
        'S' => reveal_strlit("H\\LZO[T[VZWYXWXUWSVRTQPPNOMNLLLJMHNGPFUFXG"),
        'T' => reveal_strlit("JZLFXF RR[RF"),
        'U' => reveal_strlit("G]LFLWMYNZP[T[VZWYXWXF"),
        'V' => reveal_strlit("I[KFR[YF"),
        'W' => reveal_strlit("F^IFN[RLV[[F"),
        'X' => reveal_strlit("H\\KFY[ RYFK["),
        'Y' => reveal_strlit("I[RQR[ RKFRQYF"),
        'Z' => reveal_strlit("H\\KFYFK[Y["),
        '[' => reveal_strlit("KYVbQbQDVD"),
        '\\' => reveal_strlit("KYID[_"),
        ']' => reveal_strlit("KYNbSbSDND"),
        '^' => reveal_strlit("LXNHREVH"),
        '_' => reveal_strlit("JZJ]Z]"),
        '`' => reveal_strlit("NVPESH"),
        'a' => reveal_strlit("I\\W[WPVNTMPMNN RWZU[P[NZMXMVNTPSUSWR"),
        'b' => reveal_strlit("H[M[MF RMNOMSMUNVOWQWWVYUZS[O[MZ"),
        'c' => reveal_strlit("HZVZT[P[NZMYLWLQMONNPMTMVN"),
        'd' => reveal_strlit("I\\W[WF RWZU[Q[OZNYMWMQNOONQMUMWN"),
        'e' => reveal_strlit("I[VZT[P[NZMXMPNNPMTMVNWPWRMT"),
        'f' => reveal_strlit("MYOMWM RR[RISGUFWF"),
        'g' => reveal_strlit("I\\WMW^V`UaSbPbNa RWZU[Q[OZNYMWMQNOONQMUMWN"),
        'h' => reveal_strlit("H[M[MF RV[VPUNSMPMNNMO"),
        'i' => reveal_strlit("MWR[RM RRFQGRHSGRFRH"),
        'j' => reveal_strlit("MWRMR_QaObNb RRFQGRHSGRFRH"),
        'k' => reveal_strlit("IZN[NF RPSV[ RVMNU"),
        'l' => reveal_strlit("MXU[SZRXRF"),
        'm' => reveal_strlit("D`I[IM RIOJNLMOMQNRPR[ RRPSNUMXMZN[P[["),
        'n' => reveal_strlit("I\\NMN[ RNOONQMTMVNWPW["),
        'o' => reveal_strlit("H[P[NZMYLWLQMONNPMSMUNVOWQWWVYUZS[P["),
        'p' => reveal_strlit("H[MMMb RMNOMSMUNVOWQWWVYUZS[O[MZ"),
        'q' => reveal_strlit("I\\WMWb RWZU[Q[OZNYMWMQNOONQMUMWN"),
        'r' => reveal_strlit("KXP[PM RPQQORNTMVM"),
        's' => reveal_strlit("J[NZP[T[VZWXWWVUTTQTOSNQNPONQMTMVN"),
        't' => reveal_strlit("MYOMWM RRFRXSZU[W["),
        'u' => reveal_strlit("H[VMV[ RMMMXNZP[S[UZVY"),
        'v' => reveal_strlit("JZMMR[WM"),
        'w' => reveal_strlit("G]JMN[RQV[ZM"),
        'x' => reveal_strlit("IZL[WM RLMW["),
        'y' => reveal_strlit("JZMMR[ RWMR[P`OaMb"),
        'z' => reveal_strlit("IZLMWML[W["),
        '{' => reveal_strlit("KYVcUcSbR`RVQTOSQRRPRFSDUCVC"),
        '|' => reveal_strlit("H\\RbRD"),
        '}' => reveal_strlit("KYNcOcQbR`RVSTUSSRRPRFQDOCNC"),
        '~' => reveal_strlit("KZMSNRPQTSVRWQ"),
        '\u{7f}' => reveal_strlit("F^K[KFYFY[K["),
        _ => reveal_strlit("I[QYRZQ[PZQYQ[ RMGOFTFVGWIWKVMUNSORPQRQS"),
    }
}

/// Characters from place `i` on with the marks of overbars taken out: `~{` begins an overbar,
/// and the brace that closes it ends it. `depth` braces are open.
pub open spec fn formatted_from(s: Seq<char>, i: nat, depth: nat) -> Seq<(char, bool)>
    decreases s.len() - i,
{
    if i >= s.len() {
        Seq::empty()
    } else if depth == 0 {
        if s[i as int] == '~' && i + 1 < s.len() && s[i as int + 1] == '{' {
            formatted_from(s, i + 2, 1)
        } else {
            seq![(s[i as int], false)] + formatted_from(s, i + 1, 0)
        }
    } else if s[i as int] == '{' {
        seq![('{', true)] + formatted_from(s, i + 1, depth + 1)
    } else if s[i as int] == '}' {
        if depth > 1 {
            seq![('}', true)] + formatted_from(s, i + 1, (depth - 1) as nat)
        } else {
            formatted_from(s, i + 1, 0)
        }
    } else {
        seq![(s[i as int], true)] + formatted_from(s, i + 1, depth)
    }
}

/// The characters of a text, each with whether it has an overbar.
pub open spec fn formatted(s: Seq<char>) -> Seq<(char, bool)> {
    formatted_from(s, 0, 0)
}

/// The characters of a text, each with whether it has an overbar.
pub fn formatted_characters(text: &str) -> (r: Vec<(char, bool)>)
    ensures
        r@ == formatted(text@),
        r@.len() <= text@.len(),
{
    let chars = crate::text::chars_of(text);
    let mut r: Vec<(char, bool)> = Vec::new();
    let mut i: usize = 0;
    let mut depth: usize = 0;
    assert(r@ + formatted(chars@) =~= formatted(chars@));
    while i < chars.len()
        invariant
            i <= chars@.len(),
            depth <= i,
            chars@ == text@,
            r@.len() <= i,
            r@ + formatted_from(chars@, i as nat, depth as nat) == formatted(chars@),
        decreases chars@.len() - i,
    {
        let ghost before = r@;
        let c = chars[i];
        if depth == 0 {
            if c == '~' && i + 1 < chars.len() && chars[i + 1] == '{' {
                depth = 1;
                i = i + 2;
            } else {
                r.push((c, false));
                proof {
                    assert(r@ + formatted_from(chars@, (i + 1) as nat, 0) =~= before + (
                    seq![(c, false)] + formatted_from(chars@, (i + 1) as nat, 0)));
                }
                i = i + 1;
            }
        } else if c == '{' {
            r.push(('{', true));
            proof {
                assert(r@ + formatted_from(chars@, (i + 1) as nat, (depth + 1) as nat) =~= before + (
                seq![('{', true)] + formatted_from(chars@, (i + 1) as nat, (depth + 1) as nat)));
            }
            depth = depth + 1;
            i = i + 1;
        } else if c == '}' {
            if depth > 1 {
                r.push(('}', true));
                proof {
                    assert(r@ + formatted_from(chars@, (i + 1) as nat, (depth - 1) as nat)
                        =~= before + (seq![('}', true)] + formatted_from(
                        chars@,
                        (i + 1) as nat,
                        (depth - 1) as nat,
                    )));
                }
            }
            depth = depth - 1;
            i = i + 1;
        } else {
            r.push((c, true));
            proof {
                assert(r@ + formatted_from(chars@, (i + 1) as nat, depth as nat) =~= before + (
                seq![(c, true)] + formatted_from(chars@, (i + 1) as nat, depth as nat)));
            }
            i = i + 1;
        }
    }
    assert(r@ + formatted_from(chars@, i as nat, depth as nat) =~= r@);
    r
}

/// A text without the mark of an overbar keeps every character, and none has an overbar.
pub proof fn plain_text_is_kept(s: Seq<char>)
    requires
        forall|i: int| 0 <= i < s.len() - 1 ==> !(#[trigger] s[i] == '~' && s[i + 1] == '{'),
    ensures
        formatted(s) == s.map_values(|c: char| (c, false)),
{
    lemma_plain_from(s, 0);
    assert(s.skip(0) =~= s);
}

proof fn lemma_plain_from(s: Seq<char>, i: nat)
    requires
        i <= s.len(),
        forall|i: int| 0 <= i < s.len() - 1 ==> !(#[trigger] s[i] == '~' && s[i + 1] == '{'),
    ensures
        formatted_from(s, i, 0) == s.skip(i as int).map_values(|c: char| (c, false)),
    decreases s.len() - i,
{
    let rest = s.skip(i as int).map_values(|c: char| (c, false));
    if i < s.len() {
        lemma_plain_from(s, i + 1);
        assert(rest =~= seq![(s[i as int], false)] + s.skip(i as int + 1).map_values(
            |c: char| (c, false),
        ));
    } else {
        assert(rest =~= Seq::empty());
    }
}

/// How far a letter lies from `R`, in heights of a capital.
pub open spec fn letter_place(c: char) -> Double {
    crate::double::nearest(c as int - 82, 0).spec_product(crate::double::spec_ratio(1, 21))
}

fn number_of(c: char) -> (r: i64)
    ensures
        r == c as int,
        0 <= r <= 0x10_ffff,
{
    c as u32 as i64
}

/// How far a letter lies from `R`, in heights of a capital.
fn coordinate(letter: char) -> (r: Double)
    ensures
        r == letter_place(letter),
        r.wf(),
        r.within(600),
{
    Double::from_int(number_of(letter) - 82).times(crate::double::ratio(1, 21))
}

/// The advance of a character, in heights of a capital.
pub open spec fn advance_of(c: char) -> Double {
    letter_place(glyph_of(c)[1]).spec_difference(letter_place(glyph_of(c)[0]))
}

/// The advance of a character, in heights of a capital.
pub fn glyph_width(c: char) -> (r: Double)
    ensures
        r == advance_of(c),
        r.wf(),
        r.within(700),
{
    proof {
        glyphs_have_an_advance(c);
    }
    let letters = crate::text::chars_of(glyph(c));
    coordinate(letters[1]).minus(coordinate(letters[0]))
}

/// The multiple of `quantum` nearest to an advance, or the advance itself where there is no
/// quantum.
pub open spec fn quantized(advance: Double, quantum: Double) -> Double {
    if Double::spec_zero().spec_less(quantum) {
        advance.spec_quotient(quantum).spec_round().spec_product(quantum)
    } else {
        advance
    }
}

pub fn zero() -> (r: Double)
    ensures
        r == Double::spec_zero(),
        r.wf(),
        r.within(0),
{
    Double { negative: false, mantissa: 0, exponent: 0 }
}

/// A number above zero is not zero.
proof fn lemma_positive(x: Double)
    requires
        x.wf(),
        Double::spec_zero().spec_less(x),
    ensures
        x.mantissa != 0,
{
    crate::double::lemma_order(Double::spec_zero(), x);
}

/// The multiple of `quantum` nearest to an advance, or the advance itself where there is no
/// quantum.
pub fn quantize_advance(advance: Double, quantum: Double) -> (r: Double)
    requires
        advance.wf(),
        quantum.wf(),
        advance.within(5000),
        quantum.within(3000),
    ensures
        r == quantized(advance, quantum),
        r.wf(),
        r.within(12000),
{
    if zero().less(quantum) {
        proof {
            lemma_positive(quantum);
        }
        advance.divided_by(quantum).rounded_away().times(quantum)
    } else {
        advance
    }
}

/// The place that a tab leads to from `width`: the next multiple of four heights. Text without
/// height has no tab stops.
pub open spec fn after_tab(width: Double, size: Double) -> Double {
    if size.mantissa == 0 {
        width
    } else {
        let tab = crate::double::nearest(4, 0).spec_product(size);
        width.spec_quotient(tab).spec_floor().spec_sum(crate::double::nearest(1, 0)).spec_product(
            tab,
        )
    }
}

/// The place after the first `n` characters, if each advance is rounded to `quantum`.
pub open spec fn cursor_upto(
    chars: Seq<(char, bool)>,
    size: Double,
    quantum: Double,
    n: nat,
) -> Double
    decreases n,
{
    if n == 0 {
        Double::spec_zero()
    } else {
        let before = cursor_upto(chars, size, quantum, (n - 1) as nat);
        if chars[n - 1].0 == '\t' {
            after_tab(before, size)
        } else {
            before.spec_sum(quantized(advance_of(chars[n - 1].0).spec_product(size), quantum))
        }
    }
}

/// No text that is drawn is longer.
pub const LONGEST: u64 = 0x1_1000_0000;

/// What the exponents of the places in a text stay within.
pub open spec fn text_reach(n: nat) -> int {
    20000 + 7000 * n as int
}

fn next_cursor(before: Double, c: char, size: Double, quantum: Double, Ghost(n): Ghost<nat>) -> (r:
    Double)
    requires
        before.wf(),
        before.within(text_reach(n)),
        n <= LONGEST,
        size.wf(),
        quantum.wf(),
        size.within(3000),
        quantum.within(3000),
    ensures
        r == (if c == '\t' {
            after_tab(before, size)
        } else {
            before.spec_sum(quantized(advance_of(c).spec_product(size), quantum))
        }),
        r.wf(),
        r.within(text_reach(n + 1)),
{
    if c == '\t' {
        if size.mantissa == 0 {
            return before;
        }
        let tab = Double::from_int(4).times(size);
        before.divided_by(tab).floored().plus(Double::from_int(1)).times(tab)
    } else {
        before.plus(quantize_advance(glyph_width(c).times(size), quantum))
    }
}

fn cursor_after(chars: &Vec<(char, bool)>, size: Double, quantum: Double) -> (r: Double)
    requires
        chars@.len() <= LONGEST,
        size.wf(),
        quantum.wf(),
        size.within(3000),
        quantum.within(3000),
    ensures
        r == cursor_upto(chars@, size, quantum, chars@.len()),
        r.wf(),
        r.within(text_reach(chars@.len())),
{
    let mut width = zero();
    let mut i: usize = 0;
    while i < chars.len()
        invariant
            i <= chars@.len() <= LONGEST,
            width == cursor_upto(chars@, size, quantum, i as nat),
            width.wf(),
            width.within(text_reach(i as nat)),
            size.wf(),
            quantum.wf(),
            size.within(3000),
            quantum.within(3000),
        decreases chars@.len() - i,
    {
        width = next_cursor(width, chars[i].0, size, quantum, Ghost(i as nat));
        i = i + 1;
    }
    width
}

/// The gap between characters, in heights of a capital.
pub open spec fn gap() -> Double {
    crate::double::spec_ratio(2, 10)
}

/// How long the characters are when drawn, without the gap behind the last.
pub open spec fn width_of(chars: Seq<(char, bool)>, size: Double) -> Double {
    crate::geometry::spec_greater(
        cursor_upto(chars, size, Double::spec_zero(), chars.len()).spec_difference(
            gap().spec_product(size),
        ),
        Double::spec_zero(),
    )
}

fn text_width_for(chars: &Vec<(char, bool)>, size: Double) -> (r: Double)
    requires
        chars@.len() <= LONGEST,
        size.wf(),
        size.within(3000),
    ensures
        r == width_of(chars@, size),
        r.wf(),
        r.within(text_reach(chars@.len()) + 60),
{
    let cursor = cursor_after(chars, size, zero());
    crate::geometry::greater(
        cursor.minus(crate::double::ratio(2, 10).times(size)),
        zero(),
    )
}

/// How long a text is when drawn.
pub fn text_width(text: &str, size_mm: Double) -> (r: Double)
    requires
        text@.len() <= LONGEST,
        size_mm.wf(),
        size_mm.within(3000),
    ensures
        r == width_of(formatted(text@), size_mm),
        r.wf(),
        r.within(text_reach(text@.len()) + 60),
{
    text_width_for(&formatted_characters(text), size_mm)
}

/// The length of a text with what its strokes add.
pub open spec fn layout_of(text: Seq<char>, size: Double, stroke: Double) -> Double {
    width_of(formatted(text), size).spec_sum(crate::double::nearest(3, 0).spec_product(stroke))
}

/// The length of a text with what its strokes add.
pub fn layout_width(text: &str, size_mm: Double, stroke_width_mm: Double) -> (r: Double)
    requires
        text@.len() <= LONGEST,
        size_mm.wf(),
        size_mm.within(3000),
        stroke_width_mm.wf(),
        stroke_width_mm.within(3000),
    ensures
        r == layout_of(text@, size_mm, stroke_width_mm),
        r.wf(),
        r.within(text_reach(text@.len()) + 200),
{
    text_width(text, size_mm).plus(Double::from_int(3).times(stroke_width_mm))
}

/// The length of a text in the whole units that label frames are sized by: each advance is
/// rounded by itself, the gap behind the last is taken off, and both ends grow by one and a half
/// strokes.
pub open spec fn boundary_of(
    text: Seq<char>,
    size: Double,
    stroke: Double,
    quantum: Double,
) -> Double {
    let chars = formatted(text);
    cursor_upto(chars, size, quantum, chars.len()).spec_difference(
        quantized(gap().spec_product(size), quantum),
    ).spec_sum(
        crate::double::nearest(2, 0).spec_product(
            quantized(crate::double::spec_ratio(3, 2).spec_product(stroke), quantum),
        ),
    )
}

/// The length of a text in the whole units that label frames are sized by.
pub fn boundary_width(
    text: &str,
    size_mm: Double,
    stroke_width_mm: Double,
    quantum: Double,
) -> (r: Double)
    requires
        text@.len() <= LONGEST,
        size_mm.wf(),
        size_mm.within(3000),
        stroke_width_mm.wf(),
        stroke_width_mm.within(3000),
        quantum.wf(),
        quantum.within(3000),
    ensures
        r == boundary_of(text@, size_mm, stroke_width_mm, quantum),
        r.wf(),
        r.within(text_reach(text@.len()) + 400),
{
    let cursor = cursor_after(&formatted_characters(text), size_mm, quantum);
    let between = quantize_advance(crate::double::ratio(2, 10).times(size_mm), quantum);
    let inflation = quantize_advance(crate::double::ratio(3, 2).times(stroke_width_mm), quantum);
    cursor.minus(between).plus(Double::from_int(2).times(inflation))
}

/// Half of `v`, rounded towards zero.
pub open spec fn half(v: int) -> int {
    if v < 0 {
        -((-v) / 2)
    } else {
        v / 2
    }
}

fn half_of(v: i128) -> (r: i128)
    requires
        v > i128::MIN,
    ensures
        r == half(v as int),
{
    if v < 0 {
        -((-v) / 2)
    } else {
        v / 2
    }
}

/// The number of quanta nearest to a length.
pub open spec fn in_quanta(length: Double, quantum: Double) -> int {
    length.spec_quotient(quantum).spec_round().spec_to_i64()
}

/// The number of quanta nearest to a length.
pub fn count_quanta(length: Double, quantum: Double) -> (r: i64)
    requires
        length.wf(),
        length.within(crate::geometry::SPAN as int),
        quantum.wf(),
        quantum.within(3000),
        quantum.mantissa != 0,
    ensures
        r == in_quanta(length, quantum),
{
    length.divided_by(quantum).rounded_away().to_i64()
}

/// How far the start of a line of text lies from its position, to the left and down.
pub open spec fn offsets_of(
    size: Double,
    stroke: Double,
    align: TextAlign,
    quantum: Double,
    cursor_width: Double,
) -> (Double, Double) {
    if !Double::spec_zero().spec_less(quantum) {
        let fudge = stroke.spec_quotient(crate::double::spec_ratio(152, 100));
        (
            match align {
                TextAlign::Left => fudge.spec_neg(),
                TextAlign::Center => cursor_width.spec_quotient(crate::double::nearest(2, 0)),
                TextAlign::Right => cursor_width.spec_sum(fudge),
            },
            crate::double::spec_ratio(415, 1000).spec_product(size).spec_difference(
                crate::double::spec_ratio(52, 1000).spec_product(stroke),
            ),
        )
    } else {
        let size = in_quanta(size, quantum);
        let stroke = crate::double::nearest(in_quanta(stroke, quantum), 0);
        let cursor = in_quanta(cursor_width, quantum);
        let fudge = stroke.spec_quotient(crate::double::spec_ratio(152, 100)).spec_to_i64();
        let line_x = match align {
            TextAlign::Left => fudge,
            TextAlign::Center => -half(cursor),
            TextAlign::Right => -(cursor + fudge),
        };
        let size_mm = crate::double::nearest(size, 0);
        let height = size_mm.spec_product(crate::double::spec_ratio(117, 100)).spec_to_i64();
        let baseline = size_mm.spec_difference(
            stroke.spec_product(crate::double::spec_ratio(52, 1000)),
        ).spec_to_i64() - half(height);
        (
            crate::double::nearest(-line_x, 0).spec_product(quantum),
            crate::double::nearest(baseline, 0).spec_product(quantum),
        )
    }
}

/// How far the start of a line of text lies from its position, to the left and down.
pub fn text_offsets(
    size_mm: Double,
    stroke_width_mm: Double,
    align: TextAlign,
    quantum: Double,
    cursor_width: Double,
) -> (r: (Double, Double))
    requires
        size_mm.wf(),
        size_mm.within(3000),
        stroke_width_mm.wf(),
        stroke_width_mm.within(3000),
        quantum.wf(),
        quantum.within(3000),
        cursor_width.wf(),
        cursor_width.within(crate::geometry::SPAN as int),
    ensures
        r == offsets_of(size_mm, stroke_width_mm, align, quantum, cursor_width),
        r.0.wf(),
        r.0.within(crate::geometry::SPAN + 10000),
        r.1.wf(),
        r.1.within(10000),
{
    if !zero().less(quantum) {
        let fudge = stroke_width_mm.divided_by(divisor(152, 100));
        let left = match align {
            TextAlign::Left => fudge.negated(),
            TextAlign::Center => cursor_width.divided_by(Double::from_int(2)),
            TextAlign::Right => cursor_width.plus(fudge),
        };
        return (
            left,
            crate::double::ratio(415, 1000).times(size_mm).minus(
                crate::double::ratio(52, 1000).times(stroke_width_mm),
            ),
        );
    }
    proof {
        lemma_positive(quantum);
    }
    let size: i64 = count_quanta(size_mm, quantum);
    let stroke = Double::from_wide(count_quanta(stroke_width_mm, quantum) as i128);
    let cursor: i64 = count_quanta(cursor_width, quantum);
    let fudge: i64 = stroke.divided_by(divisor(152, 100)).to_i64();
    let line_x: i128 = match align {
        TextAlign::Left => fudge as i128,
        TextAlign::Center => -half_of(cursor as i128),
        TextAlign::Right => -(cursor as i128 + fudge as i128),
    };
    let size = Double::from_wide(size as i128);
    let height: i64 = size.times(crate::double::ratio(117, 100)).to_i64();
    let baseline: i128 = size.minus(stroke.times(crate::double::ratio(52, 1000))).to_i64() as i128
        - half_of(height as i128);
    (
        Double::from_wide(-line_x).times(quantum),
        Double::from_wide(baseline).times(quantum),
    )
}

/// A number to divide by.
fn divisor(n: i64, d: i64) -> (r: Double)
    requires
        0 < n <= 0x20_0000_0000_0000,
        0 < d <= 0x20_0000_0000_0000,
    ensures
        r == crate::double::spec_ratio(n as int, d as int),
        r.wf(),
        r.within(400),
        r.mantissa != 0,
{
    crate::double::ratio(n, d)
}

/// How far down the line with number `index` of `count` lines lies from their common position.
pub open spec fn line_offset(index: int, count: int, size: Double, quantum: Double) -> Double {
    if !Double::spec_zero().spec_less(quantum) {
        let interline = size.spec_product(crate::double::spec_ratio(168, 100)).spec_product(
            crate::double::spec_ratio(9583, 10000),
        );
        crate::double::nearest(index, 0).spec_difference(
            crate::double::nearest(count - 1, 0).spec_quotient(crate::double::nearest(2, 0)),
        ).spec_product(interline)
    } else {
        let interline = crate::double::nearest(in_quanta(size, quantum), 0).spec_product(
            crate::double::spec_ratio(168, 100),
        ).spec_product(crate::double::spec_ratio(9583, 10000)).spec_round().spec_to_i64();
        crate::double::nearest(
            index * interline - half((count - 1) * interline),
            0,
        ).spec_product(quantum)
    }
}

/// How far down the line with number `index` of `line_count` lines lies from their common
/// position.
pub fn multiline_offset(index: usize, line_count: usize, size_mm: Double, quantum: Double) -> (r:
    Double)
    requires
        index < line_count <= u32::MAX,
        size_mm.wf(),
        size_mm.within(3000),
        quantum.wf(),
        quantum.within(3000),
    ensures
        r == line_offset(index as int, line_count as int, size_mm, quantum),
        r.wf(),
        r.within(10000),
{
    if !zero().less(quantum) {
        let interline = size_mm.times(crate::double::ratio(168, 100)).times(
            crate::double::ratio(9583, 10000),
        );
        return Double::from_int(index as i64).minus(
            Double::from_int((line_count - 1) as i64).divided_by(Double::from_int(2)),
        ).times(interline);
    }
    proof {
        lemma_positive(quantum);
    }
    let size: i64 = count_quanta(size_mm, quantum);
    let interline: i64 = Double::from_wide(size as i128).times(
        crate::double::ratio(168, 100),
    ).times(crate::double::ratio(9583, 10000)).rounded_away().to_i64();
    proof {
        lemma_small_product(index as int, interline as int);
        lemma_small_product(line_count - 1, interline as int);
    }
    let down: i128 = index as i128 * interline as i128;
    let shift: i128 = half_of((line_count - 1) as i128 * interline as i128);
    Double::from_wide(down - shift).times(quantum)
}

proof fn lemma_small_product(a: int, b: int)
    requires
        0 <= a <= u32::MAX,
        i64::MIN <= b <= i64::MAX,
    ensures
        -0x8000_0000_0000_0000_0000_0000 <= a * b <= 0x8000_0000_0000_0000_0000_0000,
{
    assert(-0x8000_0000_0000_0000_0000_0000 <= a * b <= 0x8000_0000_0000_0000_0000_0000)
        by (nonlinear_arith)
        requires
            0 <= a <= 0xffff_ffff,
            -0x8000_0000_0000_0000 <= b <= 0x7fff_ffff_ffff_ffff,
    ;
}

/// A straight stroke of the pen.
#[derive(Clone, Copy, PartialEq, Eq, Structural, Debug)]
pub struct PenStroke {
    pub from: Point,
    pub to: Point,
}

/// Where two letters of a glyph put the pen.
pub open spec fn pen_at(first: char, a: char, b: char, cursor: Double, size: Double) -> Point {
    Point {
        x: cursor.spec_sum(
            letter_place(a).spec_difference(letter_place(first)).spec_product(size),
        ),
        y: crate::double::nearest(b as int - 82 - 8, 0).spec_product(
            crate::double::spec_ratio(1, 21),
        ).spec_product(size),
    }
}

/// The strokes of the first `n` pairs of letters behind the advance, and where the pen is if it
/// is down.
pub open spec fn glyph_strokes_upto(
    letters: Seq<char>,
    cursor: Double,
    size: Double,
    n: nat,
) -> (Seq<PenStroke>, Option<Point>)
    decreases n,
{
    if n == 0 {
        (Seq::empty(), None)
    } else {
        let (strokes, pen) = glyph_strokes_upto(letters, cursor, size, (n - 1) as nat);
        let a = letters[2 * n as int];
        let b = letters[2 * n as int + 1];
        if a == ' ' && b == 'R' {
            (strokes, None)
        } else {
            let to = pen_at(letters[0], a, b, cursor, size);
            match pen {
                Some(from) => (strokes.push(PenStroke { from, to }), Some(to)),
                None => (strokes, Some(to)),
            }
        }
    }
}

/// The strokes of a character.
pub open spec fn strokes_of(c: char, cursor: Double, size: Double) -> Seq<PenStroke> {
    glyph_strokes_upto(glyph_of(c), cursor, size, ((glyph_of(c).len() - 2) / 2) as nat).0
}

/// No exponent of a stroke's place lies further from zero than `SPAN`.
pub open spec fn strokes_held(strokes: Seq<PenStroke>) -> bool {
    forall|i: int|
        0 <= i < strokes.len() ==> (#[trigger] strokes[i]).from.wf() && strokes[i].to.wf()
}

fn add_glyph(strokes: &mut Vec<PenStroke>, c: char, cursor: Double, size: Double)
    requires
        cursor.wf(),
        cursor.within(crate::geometry::SPAN - 20000),
        size.wf(),
        size.within(3000),
        strokes_held(old(strokes)@),
    ensures
        final(strokes)@ == old(strokes)@ + strokes_of(c, cursor, size),
        strokes_held(final(strokes)@),
{
    proof {
        glyphs_have_an_advance(c);
    }
    let ghost before = strokes@;
    let letters = crate::text::chars_of(glyph(c));
    let pairs: usize = (letters.len() - 2) / 2;
    let start = coordinate(letters[0]);
    let mut pen: Option<Point> = None;
    let mut n: usize = 0;
    assert(before + Seq::<PenStroke>::empty() =~= before);
    while n < pairs
        invariant
            n <= pairs,
            2 * pairs + 2 <= letters@.len(),
            letters@ == glyph_of(c),
            start == letter_place(letters@[0]),
            start.wf(),
            start.within(600),
            cursor.wf(),
            cursor.within(crate::geometry::SPAN - 20000),
            size.wf(),
            size.within(3000),
            strokes_held(strokes@),
            pen matches Some(p) ==> p.wf(),
            strokes@ == before + glyph_strokes_upto(letters@, cursor, size, n as nat).0,
            pen == glyph_strokes_upto(letters@, cursor, size, n as nat).1,
        decreases pairs - n,
    {
        assert(2 * n + 3 < letters.len());
        let a = letters[2 * n + 2];
        let b = letters[2 * n + 3];
        let ghost so_far = glyph_strokes_upto(letters@, cursor, size, n as nat).0;
        assert(a == letters@[2 * (n + 1)] && b == letters@[2 * (n + 1) + 1]);
        if a == ' ' && b == 'R' {
            pen = None;
        } else {
            let down: i64 = number_of(b) - 82 - 8;
            let to = Point {
                x: cursor.plus(coordinate(a).minus(start).times(size)),
                y: Double::from_int(down).times(crate::double::ratio(1, 21)).times(size),
            };
            if let Some(from) = pen {
                strokes.push(PenStroke { from, to });
                assert(strokes@ =~= before + so_far.push(PenStroke { from, to }));
            }
            pen = Some(to);
        }
        proof {
            let next = glyph_strokes_upto(letters@, cursor, size, (n + 1) as nat);
            assert(pen == next.1);
            assert(strokes@ =~= before + next.0);
        }
        n = n + 1;
    }
}

/// The stroke over the characters between two places.
pub open spec fn overbar(start: Double, end: Double, size: Double) -> PenStroke {
    let trim = size.spec_product(crate::double::spec_ratio(1, 10));
    let y = crate::double::spec_ratio(-123, 100).spec_product(size);
    PenStroke {
        from: Point { x: start.spec_sum(trim), y },
        to: Point { x: end.spec_difference(trim), y },
    }
}

fn draw_overbar(start: Double, end: Double, size: Double) -> (r: PenStroke)
    requires
        start.wf(),
        start.within(crate::geometry::SPAN - 20000),
        end.wf(),
        end.within(crate::geometry::SPAN - 20000),
        size.wf(),
        size.within(3000),
    ensures
        r == overbar(start, end, size),
        r.from.wf(),
        r.to.wf(),
{
    let trim = size.times(crate::double::ratio(1, 10));
    let y = crate::double::ratio(-123, 100).times(size);
    PenStroke {
        from: Point { x: start.plus(trim), y },
        to: Point { x: end.minus(trim), y },
    }
}

/// What the first `n` characters of a line draw, and where the overbar began that is still open.
pub open spec fn line_strokes_upto(
    chars: Seq<(char, bool)>,
    size: Double,
    quantum: Double,
    n: nat,
) -> (Seq<PenStroke>, Option<Double>)
    decreases n,
{
    if n == 0 {
        (Seq::empty(), None)
    } else {
        let (strokes, bar) = line_strokes_upto(chars, size, quantum, (n - 1) as nat);
        let (c, over) = chars[n - 1];
        let cursor = cursor_upto(chars, size, quantum, (n - 1) as nat);
        let closed = match bar {
            Some(start) => if over {
                strokes
            } else {
                strokes.push(overbar(start, cursor, size))
            },
            None => strokes,
        };
        let open = match bar {
            Some(start) => if over {
                Some(start)
            } else {
                None
            },
            None => if over {
                Some(cursor)
            } else {
                None
            },
        };
        (
            if c == '\t' || c == ' ' {
                closed
            } else {
                closed + strokes_of(c, cursor, size)
            },
            open,
        )
    }
}

/// The strokes of a line of text, from its start at the origin to the right.
pub open spec fn line_strokes(
    text: Seq<char>,
    size: Double,
    quantum: Double,
) -> Seq<PenStroke> {
    let chars = formatted(text);
    let (strokes, bar) = line_strokes_upto(chars, size, quantum, chars.len());
    match bar {
        Some(start) => strokes.push(
            overbar(start, cursor_upto(chars, size, quantum, chars.len()), size),
        ),
        None => strokes,
    }
}

/// A line of text as it is drawn: its strokes, from a start at the origin to the right, and the
/// place behind its last character.
pub struct DrawnLine {
    pub strokes: Vec<PenStroke>,
    pub cursor: Double,
}

/// Draws a line of text.
pub fn draw_line(text: &str, size_mm: Double, quantum: Double) -> (r: DrawnLine)
    requires
        text@.len() <= LONGEST,
        size_mm.wf(),
        size_mm.within(3000),
        quantum.wf(),
        quantum.within(3000),
    ensures
        r.strokes@ == line_strokes(text@, size_mm, quantum),
        r.cursor == cursor_upto(formatted(text@), size_mm, quantum, formatted(text@).len()),
        r.cursor.wf(),
        r.cursor.within(crate::geometry::SPAN - 20000),
        strokes_held(r.strokes@),
{
    let chars = formatted_characters(text);
    let mut strokes: Vec<PenStroke> = Vec::new();
    let mut bar: Option<Double> = None;
    let mut cursor = zero();
    let mut i: usize = 0;
    while i < chars.len()
        invariant
            i <= chars@.len() <= LONGEST,
            size_mm.wf(),
            size_mm.within(3000),
            quantum.wf(),
            quantum.within(3000),
            cursor == cursor_upto(chars@, size_mm, quantum, i as nat),
            cursor.wf(),
            cursor.within(text_reach(i as nat)),
            strokes@ == line_strokes_upto(chars@, size_mm, quantum, i as nat).0,
            bar == line_strokes_upto(chars@, size_mm, quantum, i as nat).1,
            bar matches Some(start) ==> start.wf() && start.within(crate::geometry::SPAN - 20000),
            strokes_held(strokes@),
        decreases chars@.len() - i,
    {
        let (c, over) = chars[i];
        match bar {
            Some(start) => {
                if !over {
                    strokes.push(draw_overbar(start, cursor, size_mm));
                    bar = None;
                }
            },
            None => {
                if over {
                    bar = Some(cursor);
                }
            },
        }
        if c != '\t' && c != ' ' {
            add_glyph(&mut strokes, c, cursor, size_mm);
        }
        cursor = next_cursor(cursor, c, size_mm, quantum, Ghost(i as nat));
        i = i + 1;
    }
    if let Some(start) = bar {
        strokes.push(draw_overbar(start, cursor, size_mm));
    }
    DrawnLine { strokes, cursor }
}

/// `value` without its fraction, after it was moved away from zero by `epsilon`.
pub open spec fn cut_off(value: Double, epsilon: Double) -> Double {
    value.spec_sum(
        if value.negative {
            epsilon.spec_neg()
        } else {
            epsilon
        },
    ).spec_trunc()
}

/// A coordinate cut off to a multiple of `quantum`, in single precision.
pub open spec fn on_quantum(v: Double, quantum: Double, epsilon: Double) -> Double {
    cut_off(v.spec_quotient(quantum), epsilon).spec_product(quantum).spec_single()
}

fn quantize(v: Double, quantum: Double, epsilon: Double) -> (r: Double)
    requires
        v.wf(),
        v.within(2 * crate::geometry::SPAN),
        quantum.wf(),
        quantum.within(3000),
        quantum.mantissa != 0,
        epsilon.wf(),
        epsilon.within(3000),
    ensures
        r == on_quantum(v, quantum, epsilon),
        r.wf(),
{
    let value = v.divided_by(quantum);
    let nudge = if value.negative {
        epsilon.negated()
    } else {
        epsilon
    };
    value.plus(nudge).truncated().times(quantum).single()
}

/// A point with both coordinates cut off to multiples of `quantum`. What lies no further than
/// `epsilon` quanta inside a multiple counts as that multiple.
pub fn quantize_point(point: Point, quantum: Double, epsilon: Double) -> (r: Point)
    requires
        point.x.wf(),
        point.x.within(2 * crate::geometry::SPAN),
        point.y.wf(),
        point.y.within(2 * crate::geometry::SPAN),
        quantum.wf(),
        quantum.within(3000),
        quantum.mantissa != 0,
        epsilon.wf(),
        epsilon.within(3000),
    ensures
        r == (Point {
            x: on_quantum(point.x, quantum, epsilon),
            y: on_quantum(point.y, quantum, epsilon),
        }),
{
    Point {
        x: quantize(point.x, quantum, epsilon),
        y: quantize(point.y, quantum, epsilon),
    }
}

} // verus!
