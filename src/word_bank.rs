use crate::random::choose_word;
use vstd::prelude::*;

verus! {

/// Why a word bank could not be built or could not give a word.
#[derive(Clone, Copy, Debug, PartialEq, Eq, Structural)]
pub enum WordBankError {
    /// The level does not name a configured tier.
    LevelOutOfRange,
    /// A tier holds no word at all.
    EmptyTier,
    /// A tier holds the empty word.
    EmptyWord,
}

/// Fixed vocabularies, one tier per level, level 1 first.
pub struct WordBank {
    tiers: Vec<Vec<&'static str>>,
}

/// Every tier holds at least one word and no word is empty.
pub open spec fn tiers_wf(tiers: Seq<Vec<&'static str>>) -> bool {
    forall|t: int|
        0 <= t < tiers.len() ==> {
            &&& #[trigger] tiers[t]@.len() > 0
            &&& forall|i: int| 0 <= i < tiers[t]@.len() ==> (#[trigger] tiers[t]@[i])@.len() > 0
        }
}

impl WordBank {
    pub closed spec fn tiers(&self) -> Seq<Vec<&'static str>> {
        self.tiers@
    }

    /// The number of configured levels.
    pub open spec fn num_levels(&self) -> nat {
        self.tiers().len()
    }

    /// Whether `level` names a configured tier.
    pub open spec fn valid_level(&self, level: int) -> bool {
        1 <= level <= self.num_levels()
    }

    /// The words of tier `level`, as character sequences.
    pub open spec fn vocabulary(&self, level: int) -> Seq<Seq<char>> {
        self.tiers()[level - 1]@.map_values(|w: &'static str| w@)
    }

    pub open spec fn wf(&self) -> bool {
        tiers_wf(self.tiers())
    }

    /// The game's two tiers of ten words each.
    pub fn standard() -> (r: WordBank)
        ensures
            r.wf(),
            r.num_levels() == 2,
            r.vocabulary(1) == seq!["ape"@, "sko"@, "ball"@, "tog"@, "bil"@, "snø"@, "hus"@, "ake"@, "dag"@, "sol"@],
            r.vocabulary(2) == seq!["kake"@, "hest"@, "fisk"@, "gris"@, "vann"@, "bekk"@, "buss"@, "vott"@, "måke"@, "slott"@],
    {
        proof {
            reveal_strlit("ape");
            reveal_strlit("sko");
            reveal_strlit("ball");
            reveal_strlit("tog");
            reveal_strlit("bil");
            reveal_strlit("snø");
            reveal_strlit("hus");
            reveal_strlit("ake");
            reveal_strlit("dag");
            reveal_strlit("sol");
            reveal_strlit("kake");
            reveal_strlit("hest");
            reveal_strlit("fisk");
            reveal_strlit("gris");
            reveal_strlit("vann");
            reveal_strlit("bekk");
            reveal_strlit("buss");
            reveal_strlit("vott");
            reveal_strlit("måke");
            reveal_strlit("slott");
        }
        let mut first: Vec<&'static str> = Vec::new();
        first.push("ape");
        first.push("sko");
        first.push("ball");
        first.push("tog");
        first.push("bil");
        first.push("snø");
        first.push("hus");
        first.push("ake");
        first.push("dag");
        first.push("sol");
        let mut second: Vec<&'static str> = Vec::new();
        second.push("kake");
        second.push("hest");
        second.push("fisk");
        second.push("gris");
        second.push("vann");
        second.push("bekk");
        second.push("buss");
        second.push("vott");
        second.push("måke");
        second.push("slott");
        let mut tiers: Vec<Vec<&'static str>> = Vec::new();
        tiers.push(first);
        tiers.push(second);
        let b = WordBank { tiers };
        assert(tiers_wf(b.tiers@));
        assert(b.vocabulary(1) =~= seq!["ape"@, "sko"@, "ball"@, "tog"@, "bil"@, "snø"@, "hus"@, "ake"@, "dag"@, "sol"@]);
        assert(b.vocabulary(2) =~= seq!["kake"@, "hest"@, "fisk"@, "gris"@, "vann"@, "bekk"@, "buss"@, "vott"@, "måke"@, "slott"@]);
        b
    }

    /// Builds a bank from the given tiers. A tier without words, or an empty
    /// word, is a configuration error.
    pub fn with_tiers(tiers: Vec<Vec<&'static str>>) -> (r: Result<WordBank, WordBankError>)
        ensures
            r matches Ok(b) ==> b.wf() && b.tiers() == tiers@,
            r == Err::<WordBank, _>(WordBankError::EmptyTier) <==> exists|t: int|
                0 <= t < tiers@.len() && #[trigger] tiers@[t]@.len() == 0,
            r == Err::<WordBank, _>(WordBankError::EmptyWord) <==> (forall|t: int|
                0 <= t < tiers@.len() ==> #[trigger] tiers@[t]@.len() > 0) && !tiers_wf(tiers@),
            r is Ok <==> tiers_wf(tiers@),
    {
        let mut t: usize = 0;
        while t < tiers.len()
            invariant
                t <= tiers@.len(),
                forall|u: int| 0 <= u < t ==> #[trigger] tiers@[u]@.len() > 0,
            decreases tiers@.len() - t,
        {
            if tiers[t].len() == 0 {
                return Err(WordBankError::EmptyTier);
            }
            t = t + 1;
        }
        let mut t: usize = 0;
        while t < tiers.len()
            invariant
                t <= tiers@.len(),
                forall|u: int| 0 <= u < tiers@.len() ==> #[trigger] tiers@[u]@.len() > 0,
                forall|u: int, i: int|
                    0 <= u < t && 0 <= i < tiers@[u]@.len() ==> (#[trigger] tiers@[u]@[i])@.len() > 0,
            decreases tiers@.len() - t,
        {
            let tier = &tiers[t];
            let mut i: usize = 0;
            while i < tier.len()
                invariant
                    t < tiers@.len(),
                    tier == tiers@[t as int],
                    i <= tier@.len(),
                    forall|u: int| 0 <= u < tiers@.len() ==> #[trigger] tiers@[u]@.len() > 0,
                    forall|u: int, j: int|
                        0 <= u < t && 0 <= j < tiers@[u]@.len() ==> (#[trigger] tiers@[u]@[j])@.len() > 0,
                    forall|j: int| 0 <= j < i ==> (#[trigger] tier@[j])@.len() > 0,
                decreases tier@.len() - i,
            {
                if tier[i].unicode_len() == 0 {
                    proof {
                        assert(!tiers_wf(tiers@)) by {
                            assert(tiers@[t as int]@[i as int]@.len() == 0);
                        }
                    }
                    return Err(WordBankError::EmptyWord);
                }
                i = i + 1;
            }
            t = t + 1;
        }
        Ok(WordBank { tiers })
    }

    /// The number of configured levels.
    pub fn level_count(&self) -> (r: usize)
        ensures
            r == self.num_levels(),
    {
        self.tiers.len()
    }

    /// Returns one word of tier `level`, drawn uniformly at random. A level
    /// outside the configured tiers is an error.
    pub fn next_word(&self, level: usize) -> (r: Result<String, WordBankError>)
        requires
            self.wf(),
        ensures
            r is Ok <==> self.valid_level(level as int),
            r is Err ==> r == Err::<String, _>(WordBankError::LevelOutOfRange),
            r matches Ok(w) ==> {
                &&& w@.len() > 0
                &&& self.vocabulary(level as int).contains(w@)
            },
    {
        if level == 0 || level > self.tiers.len() {
            return Err(WordBankError::LevelOutOfRange);
        }
        let tier = &self.tiers[level - 1];
        match choose_word(tier) {
            Some(w) => {
                let ghost i = choose|i: int| 0 <= i < tier@.len() && tier@[i] == w;
                proof {
                    assert(self.vocabulary(level as int)[i] == w@);
                }
                Ok(w.to_owned())
            },
            None => Err(WordBankError::EmptyTier),
        }
    }
}

} // verus!
