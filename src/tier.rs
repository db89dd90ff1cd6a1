use vstd::prelude::*;

use crate::paths::{join, join_path, text_eq};

verus! {

/// The fixed, ordered set of storage tiers a photo moves through.
#[derive(Clone, Copy, Debug, PartialEq, Eq, Structural, Hash)]
pub enum Tier {
    Bronze,
    Silver,
    Gold,
    Archive,
}

/// Position of a tier in the curation order (intake first).
pub open spec fn tier_rank(t: Tier) -> nat {
    match t {
        Tier::Bronze => 0,
        Tier::Silver => 1,
        Tier::Gold => 2,
        Tier::Archive => 3,
    }
}

impl Tier {
    pub fn rank(self) -> (r: u8)
        ensures
            r as nat == tier_rank(self),
    {
        match self {
            Tier::Bronze => 0,
            Tier::Silver => 1,
            Tier::Gold => 2,
            Tier::Archive => 3,
        }
    }
}

/// The directory name of each tier under the media root.
pub open spec fn tier_name(t: Tier) -> Seq<char> {
    match t {
        Tier::Bronze => seq!['b', 'r', 'o', 'n', 'z', 'e'],
        Tier::Silver => seq!['s', 'i', 'l', 'v', 'e', 'r'],
        Tier::Gold => seq!['g', 'o', 'l', 'd'],
        Tier::Archive => seq!['a', 'r', 'c', 'h', 'i', 'v', 'e'],
    }
}

/// The tier a caller-supplied name denotes, if any.
pub open spec fn tier_named(s: Seq<char>) -> Option<Tier> {
    if s == tier_name(Tier::Bronze) {
        Some(Tier::Bronze)
    } else if s == tier_name(Tier::Silver) {
        Some(Tier::Silver)
    } else if s == tier_name(Tier::Gold) {
        Some(Tier::Gold)
    } else if s == tier_name(Tier::Archive) {
        Some(Tier::Archive)
    } else {
        None
    }
}

pub proof fn lemma_tier_name_round_trip(t: Tier)
    ensures
        tier_named(tier_name(t)) == Some(t),
{
    assert(tier_name(Tier::Bronze) != tier_name(Tier::Silver));
    assert(tier_name(Tier::Bronze) != tier_name(Tier::Gold));
    assert(tier_name(Tier::Bronze) != tier_name(Tier::Archive));
    assert(tier_name(Tier::Silver) != tier_name(Tier::Gold));
    assert(tier_name(Tier::Silver) != tier_name(Tier::Archive));
    assert(tier_name(Tier::Gold) != tier_name(Tier::Archive));
}

impl Tier {
    pub fn name(self) -> (r: &'static str)
        ensures
            r@ == tier_name(self),
    {
        proof {
            reveal_strlit("bronze");
            reveal_strlit("silver");
            reveal_strlit("gold");
            reveal_strlit("archive");
        }
        match self {
            Tier::Bronze => "bronze",
            Tier::Silver => "silver",
            Tier::Gold => "gold",
            Tier::Archive => "archive",
        }
    }
}

/// Every tier, in curation order.
pub fn all_tiers() -> (r: Vec<Tier>)
    ensures
        r@ == seq![Tier::Bronze, Tier::Silver, Tier::Gold, Tier::Archive],
{
    vec![Tier::Bronze, Tier::Silver, Tier::Gold, Tier::Archive]
}

/// The tier named `s`; `None` for any name outside the closed set.
pub fn parse_tier(s: &str) -> (r: Option<Tier>)
    ensures
        r == tier_named(s@),
{
    if text_eq(s, Tier::Bronze.name()) {
        Some(Tier::Bronze)
    } else if text_eq(s, Tier::Silver.name()) {
        Some(Tier::Silver)
    } else if text_eq(s, Tier::Gold.name()) {
        Some(Tier::Gold)
    } else if text_eq(s, Tier::Archive.name()) {
        Some(Tier::Archive)
    } else {
        None
    }
}

pub fn is_valid_tier(s: &str) -> (r: bool)
    ensures
        r == tier_named(s@) is Some,
{
    parse_tier(s).is_some()
}

/// The directory of tier `tier` under the media root `root`.
pub fn tier_dir(root: &str, tier: &str) -> (r: String)
    ensures
        r@ == join(root@, tier@),
{
    join_path(root, tier)
}

} // verus!
