//! The keywords of LOLCODE and their texts.

use vstd::prelude::*;
use crate::text::{chars_eq, chars_of};

verus! {

/// A reserved word of the language.
#[derive(Debug, Clone, Copy, PartialEq, Eq, Structural)]
pub enum Keyword {
    A,
    All,
    An,
    Any,
    Biggr,
    Both,
    Btw,
    Can,
    Diff,
    Diffrint,
    Either,
    Found,
    Gimmeh,
    Gtfo,
    Hai,
    Has,
    How,
    I,
    If,
    Is,
    Itz,
    Iz,
    KThxBye,
    Maek,
    Mebbe,
    Mkay,
    Mod,
    No,
    Noob,
    Not,
    Now,
    Numbar,
    Numbr,
    O,
    Of,
    Oic,
    Omg,
    Omgwtf,
    Produkt,
    Quoshunt,
    R,
    Rly,
    Saem,
    Say,
    Smallr,
    So,
    Smoosh,
    Srs,
    Sum,
    Troof,
    U,
    Visible,
    Wai,
    Won,
    Wtf,
    Ya,
    Yarn,
    Yr,
}

impl Keyword {
    /// The text of the keyword.
    pub open spec fn spec_text(self) -> Seq<char> {
        match self {
            Keyword::A => "A"@,
            Keyword::All => "ALL"@,
            Keyword::An => "AN"@,
            Keyword::Any => "ANY"@,
            Keyword::Biggr => "BIGGR"@,
            Keyword::Both => "BOTH"@,
            Keyword::Btw => "BTW"@,
            Keyword::Can => "CAN"@,
            Keyword::Diff => "DIFF"@,
            Keyword::Diffrint => "DIFFRINT"@,
            Keyword::Either => "EITHER"@,
            Keyword::Found => "FOUND"@,
            Keyword::Gimmeh => "GIMMEH"@,
            Keyword::Gtfo => "GTFO"@,
            Keyword::Hai => "HAI"@,
            Keyword::Has => "HAS"@,
            Keyword::How => "HOW"@,
            Keyword::I => "I"@,
            Keyword::If => "IF"@,
            Keyword::Is => "IS"@,
            Keyword::Itz => "ITZ"@,
            Keyword::Iz => "IZ"@,
            Keyword::KThxBye => "KTHXBYE"@,
            Keyword::Maek => "MAEK"@,
            Keyword::Mebbe => "MEBBE"@,
            Keyword::Mkay => "MKAY"@,
            Keyword::Mod => "MOD"@,
            Keyword::No => "NO"@,
            Keyword::Noob => "NOOB"@,
            Keyword::Not => "NOT"@,
            Keyword::Now => "NOW"@,
            Keyword::Numbar => "NUMBAR"@,
            Keyword::Numbr => "NUMBR"@,
            Keyword::O => "O"@,
            Keyword::Of => "OF"@,
            Keyword::Oic => "OIC"@,
            Keyword::Omg => "OMG"@,
            Keyword::Omgwtf => "OMGWTF"@,
            Keyword::Produkt => "PRODUKT"@,
            Keyword::Quoshunt => "QUOSHUNT"@,
            Keyword::R => "R"@,
            Keyword::Rly => "RLY"@,
            Keyword::Saem => "SAEM"@,
            Keyword::Say => "SAY"@,
            Keyword::Smallr => "SMALLR"@,
            Keyword::So => "SO"@,
            Keyword::Smoosh => "SMOOSH"@,
            Keyword::Srs => "SRS"@,
            Keyword::Sum => "SUM"@,
            Keyword::Troof => "TROOF"@,
            Keyword::U => "U"@,
            Keyword::Visible => "VISIBLE"@,
            Keyword::Wai => "WAI"@,
            Keyword::Won => "WON"@,
            Keyword::Wtf => "WTF"@,
            Keyword::Ya => "YA"@,
            Keyword::Yarn => "YARN"@,
            Keyword::Yr => "YR"@,
        }
    }

    /// The text of the keyword (what its `Display` writes).
    pub fn text(&self) -> (r: &'static str)
        ensures
            r@ == self.spec_text(),
    {
        match self {
            Keyword::A => "A",
            Keyword::All => "ALL",
            Keyword::An => "AN",
            Keyword::Any => "ANY",
            Keyword::Biggr => "BIGGR",
            Keyword::Both => "BOTH",
            Keyword::Btw => "BTW",
            Keyword::Can => "CAN",
            Keyword::Diff => "DIFF",
            Keyword::Diffrint => "DIFFRINT",
            Keyword::Either => "EITHER",
            Keyword::Found => "FOUND",
            Keyword::Gimmeh => "GIMMEH",
            Keyword::Gtfo => "GTFO",
            Keyword::Hai => "HAI",
            Keyword::Has => "HAS",
            Keyword::How => "HOW",
            Keyword::I => "I",
            Keyword::If => "IF",
            Keyword::Is => "IS",
            Keyword::Itz => "ITZ",
            Keyword::Iz => "IZ",
            Keyword::KThxBye => "KTHXBYE",
            Keyword::Maek => "MAEK",
            Keyword::Mebbe => "MEBBE",
            Keyword::Mkay => "MKAY",
            Keyword::Mod => "MOD",
            Keyword::No => "NO",
            Keyword::Noob => "NOOB",
            Keyword::Not => "NOT",
            Keyword::Now => "NOW",
            Keyword::Numbar => "NUMBAR",
            Keyword::Numbr => "NUMBR",
            Keyword::O => "O",
            Keyword::Of => "OF",
            Keyword::Oic => "OIC",
            Keyword::Omg => "OMG",
            Keyword::Omgwtf => "OMGWTF",
            Keyword::Produkt => "PRODUKT",
            Keyword::Quoshunt => "QUOSHUNT",
            Keyword::R => "R",
            Keyword::Rly => "RLY",
            Keyword::Saem => "SAEM",
            Keyword::Say => "SAY",
            Keyword::Smallr => "SMALLR",
            Keyword::So => "SO",
            Keyword::Smoosh => "SMOOSH",
            Keyword::Srs => "SRS",
            Keyword::Sum => "SUM",
            Keyword::Troof => "TROOF",
            Keyword::U => "U",
            Keyword::Visible => "VISIBLE",
            Keyword::Wai => "WAI",
            Keyword::Won => "WON",
            Keyword::Wtf => "WTF",
            Keyword::Ya => "YA",
            Keyword::Yarn => "YARN",
            Keyword::Yr => "YR",
        }
    }
}

/// The keyword whose text is `w`, if there is one.
pub open spec fn keyword_of(w: Seq<char>) -> Option<Keyword> {
    if w == "A"@ {
        Some(Keyword::A)
    } else if w == "ALL"@ {
        Some(Keyword::All)
    } else if w == "AN"@ {
        Some(Keyword::An)
    } else if w == "ANY"@ {
        Some(Keyword::Any)
    } else if w == "BIGGR"@ {
        Some(Keyword::Biggr)
    } else if w == "BOTH"@ {
        Some(Keyword::Both)
    } else if w == "BTW"@ {
        Some(Keyword::Btw)
    } else if w == "CAN"@ {
        Some(Keyword::Can)
    } else if w == "DIFF"@ {
        Some(Keyword::Diff)
    } else if w == "DIFFRINT"@ {
        Some(Keyword::Diffrint)
    } else if w == "EITHER"@ {
        Some(Keyword::Either)
    } else if w == "FOUND"@ {
        Some(Keyword::Found)
    } else if w == "GIMMEH"@ {
        Some(Keyword::Gimmeh)
    } else if w == "GTFO"@ {
        Some(Keyword::Gtfo)
    } else if w == "HAI"@ {
        Some(Keyword::Hai)
    } else if w == "HAS"@ {
        Some(Keyword::Has)
    } else if w == "HOW"@ {
        Some(Keyword::How)
    } else if w == "I"@ {
        Some(Keyword::I)
    } else if w == "IF"@ {
        Some(Keyword::If)
    } else if w == "IS"@ {
        Some(Keyword::Is)
    } else if w == "ITZ"@ {
        Some(Keyword::Itz)
    } else if w == "IZ"@ {
        Some(Keyword::Iz)
    } else if w == "KTHXBYE"@ {
        Some(Keyword::KThxBye)
    } else if w == "MAEK"@ {
        Some(Keyword::Maek)
    } else if w == "MEBBE"@ {
        Some(Keyword::Mebbe)
    } else if w == "MKAY"@ {
        Some(Keyword::Mkay)
    } else if w == "MOD"@ {
        Some(Keyword::Mod)
    } else if w == "NO"@ {
        Some(Keyword::No)
    } else if w == "NOOB"@ {
        Some(Keyword::Noob)
    } else if w == "NOT"@ {
        Some(Keyword::Not)
    } else if w == "NOW"@ {
        Some(Keyword::Now)
    } else if w == "NUMBAR"@ {
        Some(Keyword::Numbar)
    } else if w == "NUMBR"@ {
        Some(Keyword::Numbr)
    } else if w == "O"@ {
        Some(Keyword::O)
    } else if w == "OF"@ {
        Some(Keyword::Of)
    } else if w == "OIC"@ {
        Some(Keyword::Oic)
    } else if w == "OMG"@ {
        Some(Keyword::Omg)
    } else if w == "OMGWTF"@ {
        Some(Keyword::Omgwtf)
    } else if w == "PRODUKT"@ {
        Some(Keyword::Produkt)
    } else if w == "QUOSHUNT"@ {
        Some(Keyword::Quoshunt)
    } else if w == "R"@ {
        Some(Keyword::R)
    } else if w == "RLY"@ {
        Some(Keyword::Rly)
    } else if w == "SAEM"@ {
        Some(Keyword::Saem)
    } else if w == "SAY"@ {
        Some(Keyword::Say)
    } else if w == "SMALLR"@ {
        Some(Keyword::Smallr)
    } else if w == "SO"@ {
        Some(Keyword::So)
    } else if w == "SMOOSH"@ {
        Some(Keyword::Smoosh)
    } else if w == "SRS"@ {
        Some(Keyword::Srs)
    } else if w == "SUM"@ {
        Some(Keyword::Sum)
    } else if w == "TROOF"@ {
        Some(Keyword::Troof)
    } else if w == "U"@ {
        Some(Keyword::U)
    } else if w == "VISIBLE"@ {
        Some(Keyword::Visible)
    } else if w == "WAI"@ {
        Some(Keyword::Wai)
    } else if w == "WON"@ {
        Some(Keyword::Won)
    } else if w == "WTF"@ {
        Some(Keyword::Wtf)
    } else if w == "YA"@ {
        Some(Keyword::Ya)
    } else if w == "YARN"@ {
        Some(Keyword::Yarn)
    } else if w == "YR"@ {
        Some(Keyword::Yr)
    } else {
        None
    }
}

/// Whether `w` is the text of some keyword.
pub open spec fn is_keyword_text(w: Seq<char>) -> bool {
    exists|k: Keyword| k.spec_text() == w
}

fn text_is(word: &[char], lit: &str) -> (r: bool)
    ensures
        r == (word@ == lit@),
{
    let l = chars_of(lit);
    chars_eq(word, l.as_slice())
}

impl Keyword {
    /// Recognises the text of a keyword.
    pub fn from_chars(word: &[char]) -> (r: Option<Keyword>)
        ensures
            r == keyword_of(word@),
    {
        if text_is(word, "A") {
            return Some(Keyword::A);
        }
        if text_is(word, "ALL") {
            return Some(Keyword::All);
        }
        if text_is(word, "AN") {
            return Some(Keyword::An);
        }
        if text_is(word, "ANY") {
            return Some(Keyword::Any);
        }
        if text_is(word, "BIGGR") {
            return Some(Keyword::Biggr);
        }
        if text_is(word, "BOTH") {
            return Some(Keyword::Both);
        }
        if text_is(word, "BTW") {
            return Some(Keyword::Btw);
        }
        if text_is(word, "CAN") {
            return Some(Keyword::Can);
        }
        if text_is(word, "DIFF") {
            return Some(Keyword::Diff);
        }
        if text_is(word, "DIFFRINT") {
            return Some(Keyword::Diffrint);
        }
        if text_is(word, "EITHER") {
            return Some(Keyword::Either);
        }
        if text_is(word, "FOUND") {
            return Some(Keyword::Found);
        }
        if text_is(word, "GIMMEH") {
            return Some(Keyword::Gimmeh);
        }
        if text_is(word, "GTFO") {
            return Some(Keyword::Gtfo);
        }
        if text_is(word, "HAI") {
            return Some(Keyword::Hai);
        }
        if text_is(word, "HAS") {
            return Some(Keyword::Has);
        }
        if text_is(word, "HOW") {
            return Some(Keyword::How);
        }
        if text_is(word, "I") {
            return Some(Keyword::I);
        }
        if text_is(word, "IF") {
            return Some(Keyword::If);
        }
        if text_is(word, "IS") {
            return Some(Keyword::Is);
        }
        if text_is(word, "ITZ") {
            return Some(Keyword::Itz);
        }
        if text_is(word, "IZ") {
            return Some(Keyword::Iz);
        }
        if text_is(word, "KTHXBYE") {
            return Some(Keyword::KThxBye);
        }
        if text_is(word, "MAEK") {
            return Some(Keyword::Maek);
        }
        if text_is(word, "MEBBE") {
            return Some(Keyword::Mebbe);
        }
        if text_is(word, "MKAY") {
            return Some(Keyword::Mkay);
        }
        if text_is(word, "MOD") {
            return Some(Keyword::Mod);
        }
        if text_is(word, "NO") {
            return Some(Keyword::No);
        }
        if text_is(word, "NOOB") {
            return Some(Keyword::Noob);
        }
        if text_is(word, "NOT") {
            return Some(Keyword::Not);
        }
        if text_is(word, "NOW") {
            return Some(Keyword::Now);
        }
        if text_is(word, "NUMBAR") {
            return Some(Keyword::Numbar);
        }
        if text_is(word, "NUMBR") {
            return Some(Keyword::Numbr);
        }
        if text_is(word, "O") {
            return Some(Keyword::O);
        }
        if text_is(word, "OF") {
            return Some(Keyword::Of);
        }
        if text_is(word, "OIC") {
            return Some(Keyword::Oic);
        }
        if text_is(word, "OMG") {
            return Some(Keyword::Omg);
        }
        if text_is(word, "OMGWTF") {
            return Some(Keyword::Omgwtf);
        }
        if text_is(word, "PRODUKT") {
            return Some(Keyword::Produkt);
        }
        if text_is(word, "QUOSHUNT") {
            return Some(Keyword::Quoshunt);
        }
        if text_is(word, "R") {
            return Some(Keyword::R);
        }
        if text_is(word, "RLY") {
            return Some(Keyword::Rly);
        }
        if text_is(word, "SAEM") {
            return Some(Keyword::Saem);
        }
        if text_is(word, "SAY") {
            return Some(Keyword::Say);
        }
        if text_is(word, "SMALLR") {
            return Some(Keyword::Smallr);
        }
        if text_is(word, "SO") {
            return Some(Keyword::So);
        }
        if text_is(word, "SMOOSH") {
            return Some(Keyword::Smoosh);
        }
        if text_is(word, "SRS") {
            return Some(Keyword::Srs);
        }
        if text_is(word, "SUM") {
            return Some(Keyword::Sum);
        }
        if text_is(word, "TROOF") {
            return Some(Keyword::Troof);
        }
        if text_is(word, "U") {
            return Some(Keyword::U);
        }
        if text_is(word, "VISIBLE") {
            return Some(Keyword::Visible);
        }
        if text_is(word, "WAI") {
            return Some(Keyword::Wai);
        }
        if text_is(word, "WON") {
            return Some(Keyword::Won);
        }
        if text_is(word, "WTF") {
            return Some(Keyword::Wtf);
        }
        if text_is(word, "YA") {
            return Some(Keyword::Ya);
        }
        if text_is(word, "YARN") {
            return Some(Keyword::Yarn);
        }
        if text_is(word, "YR") {
            return Some(Keyword::Yr);
        }
        None
    }

    /// Recognises the text of a keyword.
    pub fn from_str(word: &str) -> (r: Option<Keyword>)
        ensures
            r == keyword_of(word@),
    {
        let w = chars_of(word);
        Keyword::from_chars(w.as_slice())
    }
}

/// `keyword_of` finds exactly the keywords: a text is recognised iff it is the text
/// of some keyword, and then it is recognised as that keyword.
pub proof fn law_keyword_of_is_exact(w: Seq<char>)
    ensures
        keyword_of(w) is Some <==> is_keyword_text(w),
        keyword_of(w) matches Some(k) ==> k.spec_text() == w,
{
    if keyword_of(w) is None {
        assert forall|k: Keyword| k.spec_text() != w by {
            match k {
                Keyword::A => {},
                Keyword::All => {},
                Keyword::An => {},
                Keyword::Any => {},
                Keyword::Biggr => {},
                Keyword::Both => {},
                Keyword::Btw => {},
                Keyword::Can => {},
                Keyword::Diff => {},
                Keyword::Diffrint => {},
                Keyword::Either => {},
                Keyword::Found => {},
                Keyword::Gimmeh => {},
                Keyword::Gtfo => {},
                Keyword::Hai => {},
                Keyword::Has => {},
                Keyword::How => {},
                Keyword::I => {},
                Keyword::If => {},
                Keyword::Is => {},
                Keyword::Itz => {},
                Keyword::Iz => {},
                Keyword::KThxBye => {},
                Keyword::Maek => {},
                Keyword::Mebbe => {},
                Keyword::Mkay => {},
                Keyword::Mod => {},
                Keyword::No => {},
                Keyword::Noob => {},
                Keyword::Not => {},
                Keyword::Now => {},
                Keyword::Numbar => {},
                Keyword::Numbr => {},
                Keyword::O => {},
                Keyword::Of => {},
                Keyword::Oic => {},
                Keyword::Omg => {},
                Keyword::Omgwtf => {},
                Keyword::Produkt => {},
                Keyword::Quoshunt => {},
                Keyword::R => {},
                Keyword::Rly => {},
                Keyword::Saem => {},
                Keyword::Say => {},
                Keyword::Smallr => {},
                Keyword::So => {},
                Keyword::Smoosh => {},
                Keyword::Srs => {},
                Keyword::Sum => {},
                Keyword::Troof => {},
                Keyword::U => {},
                Keyword::Visible => {},
                Keyword::Wai => {},
                Keyword::Won => {},
                Keyword::Wtf => {},
                Keyword::Ya => {},
                Keyword::Yarn => {},
                Keyword::Yr => {},
            }
        }
    } else {
        let k = keyword_of(w)->0;
        assert(k.spec_text() == w);
    }
}


/// Every keyword's text is recognised as that keyword: `from_str` undoes `text`.
pub proof fn law_keyword_text_recognised(k: Keyword)
    ensures
        keyword_of(k.spec_text()) == Some(k),
{
    reveal_strlit("A");
    assert("A"@.len() == 1 && "A"@[0] == 'A');
    reveal_strlit("ALL");
    assert("ALL"@.len() == 3 && "ALL"@[0] == 'A' && "ALL"@[1] == 'L' && "ALL"@[2] == 'L');
    reveal_strlit("AN");
    assert("AN"@.len() == 2 && "AN"@[0] == 'A' && "AN"@[1] == 'N');
    reveal_strlit("ANY");
    assert("ANY"@.len() == 3 && "ANY"@[0] == 'A' && "ANY"@[1] == 'N' && "ANY"@[2] == 'Y');
    reveal_strlit("BIGGR");
    assert("BIGGR"@.len() == 5 && "BIGGR"@[0] == 'B' && "BIGGR"@[1] == 'I' && "BIGGR"@[2] == 'G' && "BIGGR"@[3] == 'G' && "BIGGR"@[4] == 'R');
    reveal_strlit("BOTH");
    assert("BOTH"@.len() == 4 && "BOTH"@[0] == 'B' && "BOTH"@[1] == 'O' && "BOTH"@[2] == 'T' && "BOTH"@[3] == 'H');
    reveal_strlit("BTW");
    assert("BTW"@.len() == 3 && "BTW"@[0] == 'B' && "BTW"@[1] == 'T' && "BTW"@[2] == 'W');
    reveal_strlit("CAN");
    assert("CAN"@.len() == 3 && "CAN"@[0] == 'C' && "CAN"@[1] == 'A' && "CAN"@[2] == 'N');
    reveal_strlit("DIFF");
    assert("DIFF"@.len() == 4 && "DIFF"@[0] == 'D' && "DIFF"@[1] == 'I' && "DIFF"@[2] == 'F' && "DIFF"@[3] == 'F');
    reveal_strlit("DIFFRINT");
    assert("DIFFRINT"@.len() == 8 && "DIFFRINT"@[0] == 'D' && "DIFFRINT"@[1] == 'I' && "DIFFRINT"@[2] == 'F' && "DIFFRINT"@[3] == 'F' && "DIFFRINT"@[4] == 'R' && "DIFFRINT"@[5] == 'I' && "DIFFRINT"@[6] == 'N' && "DIFFRINT"@[7] == 'T');
    reveal_strlit("EITHER");
    assert("EITHER"@.len() == 6 && "EITHER"@[0] == 'E' && "EITHER"@[1] == 'I' && "EITHER"@[2] == 'T' && "EITHER"@[3] == 'H' && "EITHER"@[4] == 'E' && "EITHER"@[5] == 'R');
    reveal_strlit("FOUND");
    assert("FOUND"@.len() == 5 && "FOUND"@[0] == 'F' && "FOUND"@[1] == 'O' && "FOUND"@[2] == 'U' && "FOUND"@[3] == 'N' && "FOUND"@[4] == 'D');
    reveal_strlit("GIMMEH");
    assert("GIMMEH"@.len() == 6 && "GIMMEH"@[0] == 'G' && "GIMMEH"@[1] == 'I' && "GIMMEH"@[2] == 'M' && "GIMMEH"@[3] == 'M' && "GIMMEH"@[4] == 'E' && "GIMMEH"@[5] == 'H');
    reveal_strlit("GTFO");
    assert("GTFO"@.len() == 4 && "GTFO"@[0] == 'G' && "GTFO"@[1] == 'T' && "GTFO"@[2] == 'F' && "GTFO"@[3] == 'O');
    reveal_strlit("HAI");
    assert("HAI"@.len() == 3 && "HAI"@[0] == 'H' && "HAI"@[1] == 'A' && "HAI"@[2] == 'I');
    reveal_strlit("HAS");
    assert("HAS"@.len() == 3 && "HAS"@[0] == 'H' && "HAS"@[1] == 'A' && "HAS"@[2] == 'S');
    reveal_strlit("HOW");
    assert("HOW"@.len() == 3 && "HOW"@[0] == 'H' && "HOW"@[1] == 'O' && "HOW"@[2] == 'W');
    reveal_strlit("I");
    assert("I"@.len() == 1 && "I"@[0] == 'I');
    reveal_strlit("IF");
    assert("IF"@.len() == 2 && "IF"@[0] == 'I' && "IF"@[1] == 'F');
    reveal_strlit("IS");
    assert("IS"@.len() == 2 && "IS"@[0] == 'I' && "IS"@[1] == 'S');
    reveal_strlit("ITZ");
    assert("ITZ"@.len() == 3 && "ITZ"@[0] == 'I' && "ITZ"@[1] == 'T' && "ITZ"@[2] == 'Z');
    reveal_strlit("IZ");
    assert("IZ"@.len() == 2 && "IZ"@[0] == 'I' && "IZ"@[1] == 'Z');
    reveal_strlit("KTHXBYE");
    assert("KTHXBYE"@.len() == 7 && "KTHXBYE"@[0] == 'K' && "KTHXBYE"@[1] == 'T' && "KTHXBYE"@[2] == 'H' && "KTHXBYE"@[3] == 'X' && "KTHXBYE"@[4] == 'B' && "KTHXBYE"@[5] == 'Y' && "KTHXBYE"@[6] == 'E');
    reveal_strlit("MAEK");
    assert("MAEK"@.len() == 4 && "MAEK"@[0] == 'M' && "MAEK"@[1] == 'A' && "MAEK"@[2] == 'E' && "MAEK"@[3] == 'K');
    reveal_strlit("MEBBE");
    assert("MEBBE"@.len() == 5 && "MEBBE"@[0] == 'M' && "MEBBE"@[1] == 'E' && "MEBBE"@[2] == 'B' && "MEBBE"@[3] == 'B' && "MEBBE"@[4] == 'E');
    reveal_strlit("MKAY");
    assert("MKAY"@.len() == 4 && "MKAY"@[0] == 'M' && "MKAY"@[1] == 'K' && "MKAY"@[2] == 'A' && "MKAY"@[3] == 'Y');
    reveal_strlit("MOD");
    assert("MOD"@.len() == 3 && "MOD"@[0] == 'M' && "MOD"@[1] == 'O' && "MOD"@[2] == 'D');
    reveal_strlit("NO");
    assert("NO"@.len() == 2 && "NO"@[0] == 'N' && "NO"@[1] == 'O');
    reveal_strlit("NOOB");
    assert("NOOB"@.len() == 4 && "NOOB"@[0] == 'N' && "NOOB"@[1] == 'O' && "NOOB"@[2] == 'O' && "NOOB"@[3] == 'B');
    reveal_strlit("NOT");
    assert("NOT"@.len() == 3 && "NOT"@[0] == 'N' && "NOT"@[1] == 'O' && "NOT"@[2] == 'T');
    reveal_strlit("NOW");
    assert("NOW"@.len() == 3 && "NOW"@[0] == 'N' && "NOW"@[1] == 'O' && "NOW"@[2] == 'W');
    reveal_strlit("NUMBAR");
    assert("NUMBAR"@.len() == 6 && "NUMBAR"@[0] == 'N' && "NUMBAR"@[1] == 'U' && "NUMBAR"@[2] == 'M' && "NUMBAR"@[3] == 'B' && "NUMBAR"@[4] == 'A' && "NUMBAR"@[5] == 'R');
    reveal_strlit("NUMBR");
    assert("NUMBR"@.len() == 5 && "NUMBR"@[0] == 'N' && "NUMBR"@[1] == 'U' && "NUMBR"@[2] == 'M' && "NUMBR"@[3] == 'B' && "NUMBR"@[4] == 'R');
    reveal_strlit("O");
    assert("O"@.len() == 1 && "O"@[0] == 'O');
    reveal_strlit("OF");
    assert("OF"@.len() == 2 && "OF"@[0] == 'O' && "OF"@[1] == 'F');
    reveal_strlit("OIC");
    assert("OIC"@.len() == 3 && "OIC"@[0] == 'O' && "OIC"@[1] == 'I' && "OIC"@[2] == 'C');
    reveal_strlit("OMG");
    assert("OMG"@.len() == 3 && "OMG"@[0] == 'O' && "OMG"@[1] == 'M' && "OMG"@[2] == 'G');
    reveal_strlit("OMGWTF");
    assert("OMGWTF"@.len() == 6 && "OMGWTF"@[0] == 'O' && "OMGWTF"@[1] == 'M' && "OMGWTF"@[2] == 'G' && "OMGWTF"@[3] == 'W' && "OMGWTF"@[4] == 'T' && "OMGWTF"@[5] == 'F');
    reveal_strlit("PRODUKT");
    assert("PRODUKT"@.len() == 7 && "PRODUKT"@[0] == 'P' && "PRODUKT"@[1] == 'R' && "PRODUKT"@[2] == 'O' && "PRODUKT"@[3] == 'D' && "PRODUKT"@[4] == 'U' && "PRODUKT"@[5] == 'K' && "PRODUKT"@[6] == 'T');
    reveal_strlit("QUOSHUNT");
    assert("QUOSHUNT"@.len() == 8 && "QUOSHUNT"@[0] == 'Q' && "QUOSHUNT"@[1] == 'U' && "QUOSHUNT"@[2] == 'O' && "QUOSHUNT"@[3] == 'S' && "QUOSHUNT"@[4] == 'H' && "QUOSHUNT"@[5] == 'U' && "QUOSHUNT"@[6] == 'N' && "QUOSHUNT"@[7] == 'T');
    reveal_strlit("R");
    assert("R"@.len() == 1 && "R"@[0] == 'R');
    reveal_strlit("RLY");
    assert("RLY"@.len() == 3 && "RLY"@[0] == 'R' && "RLY"@[1] == 'L' && "RLY"@[2] == 'Y');
    reveal_strlit("SAEM");
    assert("SAEM"@.len() == 4 && "SAEM"@[0] == 'S' && "SAEM"@[1] == 'A' && "SAEM"@[2] == 'E' && "SAEM"@[3] == 'M');
    reveal_strlit("SAY");
    assert("SAY"@.len() == 3 && "SAY"@[0] == 'S' && "SAY"@[1] == 'A' && "SAY"@[2] == 'Y');
    reveal_strlit("SMALLR");
    assert("SMALLR"@.len() == 6 && "SMALLR"@[0] == 'S' && "SMALLR"@[1] == 'M' && "SMALLR"@[2] == 'A' && "SMALLR"@[3] == 'L' && "SMALLR"@[4] == 'L' && "SMALLR"@[5] == 'R');
    reveal_strlit("SO");
    assert("SO"@.len() == 2 && "SO"@[0] == 'S' && "SO"@[1] == 'O');
    reveal_strlit("SMOOSH");
    assert("SMOOSH"@.len() == 6 && "SMOOSH"@[0] == 'S' && "SMOOSH"@[1] == 'M' && "SMOOSH"@[2] == 'O' && "SMOOSH"@[3] == 'O' && "SMOOSH"@[4] == 'S' && "SMOOSH"@[5] == 'H');
    reveal_strlit("SRS");
    assert("SRS"@.len() == 3 && "SRS"@[0] == 'S' && "SRS"@[1] == 'R' && "SRS"@[2] == 'S');
    reveal_strlit("SUM");
    assert("SUM"@.len() == 3 && "SUM"@[0] == 'S' && "SUM"@[1] == 'U' && "SUM"@[2] == 'M');
    reveal_strlit("TROOF");
    assert("TROOF"@.len() == 5 && "TROOF"@[0] == 'T' && "TROOF"@[1] == 'R' && "TROOF"@[2] == 'O' && "TROOF"@[3] == 'O' && "TROOF"@[4] == 'F');
    reveal_strlit("U");
    assert("U"@.len() == 1 && "U"@[0] == 'U');
    reveal_strlit("VISIBLE");
    assert("VISIBLE"@.len() == 7 && "VISIBLE"@[0] == 'V' && "VISIBLE"@[1] == 'I' && "VISIBLE"@[2] == 'S' && "VISIBLE"@[3] == 'I' && "VISIBLE"@[4] == 'B' && "VISIBLE"@[5] == 'L' && "VISIBLE"@[6] == 'E');
    reveal_strlit("WAI");
    assert("WAI"@.len() == 3 && "WAI"@[0] == 'W' && "WAI"@[1] == 'A' && "WAI"@[2] == 'I');
    reveal_strlit("WON");
    assert("WON"@.len() == 3 && "WON"@[0] == 'W' && "WON"@[1] == 'O' && "WON"@[2] == 'N');
    reveal_strlit("WTF");
    assert("WTF"@.len() == 3 && "WTF"@[0] == 'W' && "WTF"@[1] == 'T' && "WTF"@[2] == 'F');
    reveal_strlit("YA");
    assert("YA"@.len() == 2 && "YA"@[0] == 'Y' && "YA"@[1] == 'A');
    reveal_strlit("YARN");
    assert("YARN"@.len() == 4 && "YARN"@[0] == 'Y' && "YARN"@[1] == 'A' && "YARN"@[2] == 'R' && "YARN"@[3] == 'N');
    reveal_strlit("YR");
    assert("YR"@.len() == 2 && "YR"@[0] == 'Y' && "YR"@[1] == 'R');
    match k {
        Keyword::A => {},
        Keyword::All => {},
        Keyword::An => {},
        Keyword::Any => {},
        Keyword::Biggr => {},
        Keyword::Both => {},
        Keyword::Btw => {},
        Keyword::Can => {},
        Keyword::Diff => {},
        Keyword::Diffrint => {},
        Keyword::Either => {},
        Keyword::Found => {},
        Keyword::Gimmeh => {},
        Keyword::Gtfo => {},
        Keyword::Hai => {},
        Keyword::Has => {},
        Keyword::How => {},
        Keyword::I => {},
        Keyword::If => {},
        Keyword::Is => {},
        Keyword::Itz => {},
        Keyword::Iz => {},
        Keyword::KThxBye => {},
        Keyword::Maek => {},
        Keyword::Mebbe => {},
        Keyword::Mkay => {},
        Keyword::Mod => {},
        Keyword::No => {},
        Keyword::Noob => {},
        Keyword::Not => {},
        Keyword::Now => {},
        Keyword::Numbar => {},
        Keyword::Numbr => {},
        Keyword::O => {},
        Keyword::Of => {},
        Keyword::Oic => {},
        Keyword::Omg => {},
        Keyword::Omgwtf => {},
        Keyword::Produkt => {},
        Keyword::Quoshunt => {},
        Keyword::R => {},
        Keyword::Rly => {},
        Keyword::Saem => {},
        Keyword::Say => {},
        Keyword::Smallr => {},
        Keyword::So => {},
        Keyword::Smoosh => {},
        Keyword::Srs => {},
        Keyword::Sum => {},
        Keyword::Troof => {},
        Keyword::U => {},
        Keyword::Visible => {},
        Keyword::Wai => {},
        Keyword::Won => {},
        Keyword::Wtf => {},
        Keyword::Ya => {},
        Keyword::Yarn => {},
        Keyword::Yr => {},
    }
}

} // verus!
