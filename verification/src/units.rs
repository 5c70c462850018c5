//! Named rungs of the Band ladder and the two ladder markers.
use vstd::prelude::*;

verus! {

/// A named rung on the Band ladder — the discrete tier, as distinct from a
/// continuous position between rungs.
///
/// `Zero` is the bottom sentinel (the absence of a quantity, never reached by
/// a live one), `Empty` is a positive magnitude below `Band I`, `I`..`IV` are
/// the playable rungs above it, and `V` is the top sentinel used only for
/// comparison and clamping.
#[derive(Clone, Copy, Debug, PartialEq, Eq, PartialOrd, Ord, Hash)]
pub enum BandTier {
    Zero,
    Empty,
    I,
    II,
    III,
    IV,
    V,
}

/// The signed rung number of a tier: `Zero` sits one below the origin at
/// `Empty`, and every rung above counts one more.
pub open spec fn tier_index(t: BandTier) -> int {
    match t {
        BandTier::Zero => -1,
        BandTier::Empty => 0,
        BandTier::I => 1,
        BandTier::II => 2,
        BandTier::III => 3,
        BandTier::IV => 4,
        BandTier::V => 5,
    }
}

/// How a tier is written for a reader: the playable rungs and both sentinels
/// carry "Band", `Empty` is written bare.
pub open spec fn tier_label(t: BandTier) -> Seq<char> {
    match t {
        BandTier::Zero => "Band Zero"@,
        BandTier::Empty => "Empty"@,
        BandTier::I => "Band I"@,
        BandTier::II => "Band II"@,
        BandTier::III => "Band III"@,
        BandTier::IV => "Band IV"@,
        BandTier::V => "Band V"@,
    }
}

impl BandTier {
    /// Every rung, in order, including both sentinels.
    pub const ALL: [BandTier; 7] = [
        BandTier::Zero,
        BandTier::Empty,
        BandTier::I,
        BandTier::II,
        BandTier::III,
        BandTier::IV,
        BandTier::V,
    ];

    /// The rungs a quantity can occupy in a game: position `i` is the rung
    /// reached after crossing `i` thresholds. Both sentinels are excluded.
    pub const PLAYABLE: [BandTier; 5] = [BandTier::Empty, BandTier::I, BandTier::II, BandTier::III, BandTier::IV];

    /// The highest rung anything in a game may reach.
    pub const MAX_PLAYABLE: BandTier = BandTier::IV;

    /// The lowest rung anything in a game may reach.
    pub const MIN_PLAYABLE: BandTier = BandTier::Empty;

    /// How many rungs above `Empty` this tier is.
    pub fn index(self) -> (r: i8)
        ensures
            r == tier_index(self),
    {
        match self {
            BandTier::Zero => -1,
            BandTier::Empty => 0,
            BandTier::I => 1,
            BandTier::II => 2,
            BandTier::III => 3,
            BandTier::IV => 4,
            BandTier::V => 5,
        }
    }

    /// The tier's name as a reader sees it, e.g. `Band II`.
    pub fn label(self) -> (r: String)
        ensures
            r@ == tier_label(self),
    {
        let s: &str = match self {
            BandTier::Zero => "Band Zero",
            BandTier::Empty => "Empty",
            BandTier::I => "Band I",
            BandTier::II => "Band II",
            BandTier::III => "Band III",
            BandTier::IV => "Band IV",
            BandTier::V => "Band V",
        };
        proof {
            broadcast use vstd::string::to_string_from_display_ensures_for_str;
        }
        s.to_string()
    }
}

/// The Roman numeral of a rung number from one to five.
pub open spec fn roman_numeral(n: int) -> Seq<char> {
    if 1 <= n <= 3 {
        Seq::new(n as nat, |i: int| 'I')
    } else if n == 4 {
        seq!['I', 'V']
    } else {
        seq!['V']
    }
}

/// A tier is written by its rung: every rung from `Band I` up is `Band `
/// followed by the Roman numeral of its index, `Empty` is written bare,
/// `Zero` is `Band Zero`, and no two tiers share a name.
pub proof fn law_tiers_are_written_by_rung(a: BandTier, b: BandTier)
    ensures
        tier_index(a) >= 1 ==> tier_label(a) == seq!['B', 'a', 'n', 'd', ' '] + roman_numeral(tier_index(a)),
        tier_label(BandTier::Empty) == seq!['E', 'm', 'p', 't', 'y'],
        tier_label(BandTier::Zero) == seq!['B', 'a', 'n', 'd', ' ', 'Z', 'e', 'r', 'o'],
        tier_label(a) == tier_label(b) ==> a == b,
{
    reveal_strlit("Band Zero");
    reveal_strlit("Empty");
    reveal_strlit("Band I");
    reveal_strlit("Band II");
    reveal_strlit("Band III");
    reveal_strlit("Band IV");
    reveal_strlit("Band V");
    let band = seq!['B', 'a', 'n', 'd', ' '];
    assert(roman_numeral(1) =~= seq!['I']);
    assert(roman_numeral(2) =~= seq!['I', 'I']);
    assert(roman_numeral(3) =~= seq!['I', 'I', 'I']);
    assert(tier_label(BandTier::I) =~= band + roman_numeral(1));
    assert(tier_label(BandTier::II) =~= band + roman_numeral(2));
    assert(tier_label(BandTier::III) =~= band + roman_numeral(3));
    assert(tier_label(BandTier::IV) =~= band + roman_numeral(4));
    assert(tier_label(BandTier::V) =~= band + roman_numeral(5));
    assert(tier_label(BandTier::Empty) =~= seq!['E', 'm', 'p', 't', 'y']);
    assert(tier_label(BandTier::Zero) =~= seq!['B', 'a', 'n', 'd', ' ', 'Z', 'e', 'r', 'o']);
    if tier_label(a) == tier_label(b) && a != b {
        let la = tier_label(a);
        let lb = tier_label(b);
        assert(la.len() == lb.len());
        assert(la[la.len() - 1] == lb[lb.len() - 1]);
        assert(la[0] == lb[0]);
        if la.len() > 6 {
            assert(la[6] == lb[6]);
            assert(la[5] == lb[5]);
        }
    }
}

/// The mass ladder marker: population, biosphere, cargo hold, ore.
#[derive(Clone, Copy, Debug, Default, PartialEq, Eq)]
pub struct Mass;

/// The mineral-cost ladder marker: hull price, infrastructure, card cost.
#[derive(Clone, Copy, Debug, Default, PartialEq, Eq)]
pub struct Cost;

/// The ladder's rungs are ordered by their index, which no two rungs share;
/// `ALL` lists every rung at position `index + 1`, and `PLAYABLE` lists the
/// playable rungs at position `index`, leaving out both sentinels.
pub proof fn law_tiers_are_indexed_in_ladder_order(a: BandTier, b: BandTier)
    ensures
        tier_index(a) == tier_index(b) ==> a == b,
        -1 <= tier_index(a) <= 5,
        forall|i: int| 0 <= i < 7 ==> tier_index(#[trigger] BandTier::ALL@[i]) == i - 1,
        forall|i: int| 0 <= i < 5 ==> tier_index(#[trigger] BandTier::PLAYABLE@[i]) == i,
        forall|i: int| 0 <= i < 5 ==> #[trigger] BandTier::PLAYABLE@[i] != BandTier::Zero
            && BandTier::PLAYABLE@[i] != BandTier::V,
        tier_index(BandTier::MAX_PLAYABLE) < tier_index(BandTier::V),
        tier_index(BandTier::Zero) < tier_index(BandTier::MIN_PLAYABLE),
        tier_index(BandTier::MIN_PLAYABLE) == 0,
        tier_index(BandTier::MAX_PLAYABLE) == 4,
{
}

} // verus!
