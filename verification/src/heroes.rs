//! The playable heroes and the names that select them.

use vstd::prelude::*;
use crate::text::{bytes_equal, str_bytes, text_bytes};

verus! {

/// A playable hero.
#[derive(Clone, Copy, Debug, PartialEq, Eq, Structural)]
pub enum Hero {
    Doc,
    DwarfF,
    DwarfM,
    WizzardF,
    WizzardM,
    ElfF,
    ElfM,
    KnightF,
    KnightM,
    LizardF,
    LizardM,
}

/// The letters of a hero's kind, which its name starts with.
pub open spec fn kind_letters(hero: Hero) -> Seq<u8> {
    match hero {
        Hero::Doc => seq![0x64u8, 0x6f, 0x63],
        Hero::DwarfF | Hero::DwarfM => seq![0x64u8, 0x77, 0x61, 0x72, 0x66],
        Hero::WizzardF | Hero::WizzardM => seq![0x77u8, 0x69, 0x7a, 0x7a, 0x61, 0x72, 0x64],
        Hero::ElfF | Hero::ElfM => seq![0x65u8, 0x6c, 0x66],
        Hero::KnightF | Hero::KnightM => seq![0x6bu8, 0x6e, 0x69, 0x67, 0x68, 0x74],
        Hero::LizardF | Hero::LizardM => seq![0x6cu8, 0x69, 0x7a, 0x61, 0x72, 0x64],
    }
}

/// What follows the kind in a hero's name: `_f` or `_m`, and nothing for the
/// doc.
pub open spec fn variant_letters(hero: Hero) -> Seq<u8> {
    match hero {
        Hero::Doc => Seq::empty(),
        Hero::DwarfF | Hero::WizzardF | Hero::ElfF | Hero::KnightF | Hero::LizardF => seq![
            0x5fu8,
            0x66,
        ],
        Hero::DwarfM | Hero::WizzardM | Hero::ElfM | Hero::KnightM | Hero::LizardM => seq![
            0x5fu8,
            0x6d,
        ],
    }
}

/// The name that selects a hero, such as `elf_f`.
pub open spec fn hero_name(hero: Hero) -> Seq<u8> {
    kind_letters(hero) + variant_letters(hero)
}

impl Hero {
    /// The name that selects this hero, as bytes.
    pub fn name(&self) -> (name: Vec<u8>)
        ensures
            name@ == hero_name(*self),
    {
        let mut name: Vec<u8> = match self {
            Hero::Doc => vec![0x64u8, 0x6f, 0x63],
            Hero::DwarfF | Hero::DwarfM => vec![0x64u8, 0x77, 0x61, 0x72, 0x66],
            Hero::WizzardF | Hero::WizzardM => vec![0x77u8, 0x69, 0x7a, 0x7a, 0x61, 0x72, 0x64],
            Hero::ElfF | Hero::ElfM => vec![0x65u8, 0x6c, 0x66],
            Hero::KnightF | Hero::KnightM => vec![0x6bu8, 0x6e, 0x69, 0x67, 0x68, 0x74],
            Hero::LizardF | Hero::LizardM => vec![0x6cu8, 0x69, 0x7a, 0x61, 0x72, 0x64],
        };
        assert(name@ =~= kind_letters(*self));
        match self {
            Hero::Doc => {},
            Hero::DwarfF | Hero::WizzardF | Hero::ElfF | Hero::KnightF | Hero::LizardF => {
                name.push(0x5f);
                name.push(0x66);
            },
            Hero::DwarfM | Hero::WizzardM | Hero::ElfM | Hero::KnightM | Hero::LizardM => {
                name.push(0x5f);
                name.push(0x6d);
            },
        }
        assert(name@ =~= hero_name(*self));
        name
    }

    /// Every hero, in the order in which names are tried.
    pub fn all() -> (heroes: Vec<Hero>)
        ensures
            heroes@ == all_heroes(),
    {
        let heroes = vec![
            Hero::Doc,
            Hero::DwarfF,
            Hero::DwarfM,
            Hero::WizzardF,
            Hero::WizzardM,
            Hero::ElfF,
            Hero::ElfM,
            Hero::KnightF,
            Hero::KnightM,
            Hero::LizardF,
            Hero::LizardM,
        ];
        assert(heroes@ =~= all_heroes());
        heroes
    }
}

/// Every hero, in the order in which names are tried.
pub open spec fn all_heroes() -> Seq<Hero> {
    seq![
        Hero::Doc,
        Hero::DwarfF,
        Hero::DwarfM,
        Hero::WizzardF,
        Hero::WizzardM,
        Hero::ElfF,
        Hero::ElfM,
        Hero::KnightF,
        Hero::KnightM,
        Hero::LizardF,
        Hero::LizardM,
    ]
}

/// No hero is missing from the list of all heroes.
pub proof fn lemma_all_heroes_complete(hero: Hero)
    ensures
        all_heroes().contains(hero),
{
    let at: int = match hero {
        Hero::Doc => 0,
        Hero::DwarfF => 1,
        Hero::DwarfM => 2,
        Hero::WizzardF => 3,
        Hero::WizzardM => 4,
        Hero::ElfF => 5,
        Hero::ElfM => 6,
        Hero::KnightF => 7,
        Hero::KnightM => 8,
        Hero::LizardF => 9,
        Hero::LizardM => 10,
    };
    assert(all_heroes()[at] == hero);
}

/// No two heroes share a name.
pub proof fn lemma_hero_names_differ(a: Hero, b: Hero)
    requires
        a != b,
    ensures
        hero_name(a) != hero_name(b),
{
    let first = hero_name(a);
    let second = hero_name(b);
    assert(first.len() == kind_letters(a).len() + variant_letters(a).len());
    assert(second.len() == kind_letters(b).len() + variant_letters(b).len());
    if first.len() == second.len() {
        assert(first[0] == kind_letters(a)[0]);
        assert(second[0] == kind_letters(b)[0]);
        assert(first[1] == kind_letters(a)[1]);
        assert(second[1] == kind_letters(b)[1]);
        if first[0] == second[0] && first[1] == second[1] {
            let last = first.len() - 1;
            assert(first[last] == variant_letters(a)[1]);
            assert(second[last] == variant_letters(b)[1]);
        }
    }
}

/// The hero that `hero` names. The name must match letter for letter; any
/// other text names no hero.
pub fn get_hero(hero: &str) -> (found: Option<Hero>)
    ensures
        match found {
            Some(named) => text_bytes(hero@) == hero_name(named),
            None => forall|other: Hero| text_bytes(hero@) != hero_name(other),
        },
{
    let wanted = str_bytes(hero);
    let heroes = Hero::all();
    let mut i: usize = 0;
    while i < heroes.len()
        invariant
            i <= heroes@.len(),
            wanted@ == text_bytes(hero@),
            heroes@ == all_heroes(),
            forall|j: int| 0 <= j < i ==> wanted@ != hero_name(#[trigger] heroes@[j]),
        decreases heroes@.len() - i,
    {
        let name = heroes[i].name();
        if bytes_equal(wanted, name.as_slice()) {
            return Some(heroes[i]);
        }
        i += 1;
    }
    assert forall|other: Hero| text_bytes(hero@) != hero_name(other) by {
        lemma_all_heroes_complete(other);
        let at = choose|at: int| 0 <= at < heroes@.len() && heroes@[at] == other;
        assert(wanted@ != hero_name(heroes@[at]));
    }
    None
}

} // verus!
