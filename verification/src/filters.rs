use crate::spell::Spell;
use crate::text::{contains_seq, lower_of, str_contains, to_lowercase};
use vstd::prelude::*;

verus! {

/// The three-valued state of one filter toggle: inactive (`Unset`), required
/// (`Positive`), or excluded (`Negative`).
#[derive(Debug, Clone, PartialEq, Eq, Structural)]
pub enum FilterState {
    Unset,
    Positive,
    Negative,
}

impl FilterState {
    /// The state reached by one forward click: inactive, required, excluded, inactive, ...
    pub open spec fn spec_n(self) -> FilterState {
        match self {
            FilterState::Unset => FilterState::Positive,
            FilterState::Positive => FilterState::Negative,
            FilterState::Negative => FilterState::Unset,
        }
    }

    /// The state reached by one backward click; inverse of `spec_n`.
    pub open spec fn spec_p(self) -> FilterState {
        match self {
            FilterState::Unset => FilterState::Negative,
            FilterState::Positive => FilterState::Unset,
            FilterState::Negative => FilterState::Positive,
        }
    }

    /// Cycle forward through the three states.
    pub fn n(&self) -> (r: Self)
        ensures
            r == self.spec_n(),
    {
        match self {
            FilterState::Unset => FilterState::Positive,
            FilterState::Positive => FilterState::Negative,
            FilterState::Negative => FilterState::Unset,
        }
    }

    /// Cycle backward through the three states.
    pub fn p(&self) -> (r: Self)
        ensures
            r == self.spec_p(),
    {
        match self {
            FilterState::Unset => FilterState::Negative,
            FilterState::Positive => FilterState::Unset,
            FilterState::Negative => FilterState::Positive,
        }
    }
}

/// Cycling forward and then backward (or backward and then forward) returns
/// every filter state to where it started.
pub proof fn lemma_filter_state_cycle_inverse(s: FilterState)
    ensures
        s.spec_n().spec_p() == s,
        s.spec_p().spec_n() == s,
{
}

impl FilterState {
    /// Is this filter actively constraining anything?
    pub open spec fn spec_some_filter(self) -> bool {
        self != FilterState::Unset
    }

    /// What `test` decides: an inactive filter accepts everything, a
    /// required filter accepts the texts that contain the value
    /// case-insensitively, an excluding filter accepts the rest.
    pub open spec fn spec_test(self, spell: Seq<char>, value: Seq<char>) -> bool {
        match self {
            FilterState::Unset => true,
            FilterState::Positive => contains_seq(lower_of(spell), lower_of(value)),
            FilterState::Negative => !contains_seq(lower_of(spell), lower_of(value)),
        }
    }

    /// Test one text against this filter state for the given value.
    pub fn test(&self, spell: &str, value: &str) -> (r: bool)
        ensures
            r == self.spec_test(spell@, value@),
    {
        match self {
            FilterState::Unset => true,
            FilterState::Positive => {
                let h = to_lowercase(spell);
                let nn = to_lowercase(value);
                str_contains(h.as_str(), nn.as_str())
            },
            FilterState::Negative => {
                let h = to_lowercase(spell);
                let nn = to_lowercase(value);
                !str_contains(h.as_str(), nn.as_str())
            },
        }
    }
}

#[derive(Debug, Clone, PartialEq, Eq)]
pub enum Spellschool {
    Abjuration(FilterState),
    Conjuration(FilterState),
    Divination(FilterState),
    Enchantment(FilterState),
    Evocation(FilterState),
    Illusion(FilterState),
    Necromancy(FilterState),
    Transmutation(FilterState),
    Universal(FilterState),
}

#[derive(Debug, Clone, PartialEq, Eq)]
pub enum Subschool {
    Calling(FilterState),
    Creation(FilterState),
    Healing(FilterState),
    Summoning(FilterState),
    Teleportation(FilterState),
    Scrying(FilterState),
    Charm(FilterState),
    Compulsion(FilterState),
    Figment(FilterState),
    Glamer(FilterState),
    Pattern(FilterState),
    Phantasm(FilterState),
    Shadow(FilterState),
    Polymorph(FilterState),
}

#[derive(Debug, Clone, PartialEq, Eq)]
pub enum Level {
    _0(FilterState),
    _1(FilterState),
    _2(FilterState),
    _3(FilterState),
    _4(FilterState),
    _5(FilterState),
    _6(FilterState),
    _7(FilterState),
    _8(FilterState),
    _9(FilterState),
}

#[derive(Debug, Clone, PartialEq, Eq)]
pub enum Domain {
    Air(FilterState),
    Animal(FilterState),
    Artifice(FilterState),
    Chaos(FilterState),
    Charm(FilterState),
    Community(FilterState),
    Darkness(FilterState),
    Death(FilterState),
    Destruction(FilterState),
    Earth(FilterState),
    Erosion(FilterState),
    Evil(FilterState),
    Fire(FilterState),
    Glory(FilterState),
    Good(FilterState),
    Healing(FilterState),
    Knowledge(FilterState),
    Law(FilterState),
    Liberation(FilterState),
    Luck(FilterState),
    Madness(FilterState),
    Magic(FilterState),
    Nobility(FilterState),
    Plant(FilterState),
    Protection(FilterState),
    Repose(FilterState),
    Ruins(FilterState),
    Rune(FilterState),
    Scalykind(FilterState),
    Strength(FilterState),
    Sun(FilterState),
    Travel(FilterState),
    Trickery(FilterState),
    Vermin(FilterState),
    Void(FilterState),
    War(FilterState),
    Water(FilterState),
    Weather(FilterState),
}

#[derive(Debug, Clone, PartialEq, Eq)]
pub enum Save {
    NoSave(FilterState),
    Will(FilterState),
    Reflex(FilterState),
    Fortitude(FilterState),
    Text(FilterState),
}

#[derive(Debug, Clone, PartialEq, Eq)]
pub enum SpellResistance {
    Yes(FilterState),
    No(FilterState),
    Text(FilterState),
}

#[derive(Debug, Clone, PartialEq, Eq)]
pub enum SpellComponent {
    Verbal(FilterState),
    Somatic(FilterState),
    Material(FilterState),
}

#[derive(Debug, Clone, PartialEq, Eq)]
pub enum SpellDescriptor {
    Acid(FilterState),
    Air(FilterState),
    Chaotic(FilterState),
    Cold(FilterState),
    Curse(FilterState),
    Darkness(FilterState),
    Death(FilterState),
    Disease(FilterState),
    Draconic(FilterState),
    Earth(FilterState),
    Electricity(FilterState),
    Emotion(FilterState),
    Evil(FilterState),
    Fear(FilterState),
    Fire(FilterState),
    Force(FilterState),
    Good(FilterState),
    LanguageDependent(FilterState),
    Lawful(FilterState),
    Light(FilterState),
    Meditative(FilterState),
    MindAffecting(FilterState),
    Pain(FilterState),
    Poison(FilterState),
    Ruse(FilterState),
    Shadow(FilterState),
    Sonic(FilterState),
    Water(FilterState),
}

#[derive(Debug, Clone, PartialEq, Eq)]
pub enum SpellRange {
    Personal(FilterState),
    Touch(FilterState),
    Close(FilterState),
    Medium(FilterState),
    Long(FilterState),
}

#[derive(Debug, Clone, PartialEq, Eq)]
pub enum SpellSource {
    PfrpgCore(FilterState),
    MonsterCodex(FilterState),
    AdvancedRaceGuide(FilterState),
    AdvancedClassGuide(FilterState),
    AdvancedClassOrigins(FilterState),
    UltimateMagic(FilterState),
    UltimateCombat(FilterState),
    UltimateIntrigue(FilterState),
    UltimateWilderness(FilterState),
    ArmorMastersHandbook(FilterState),
    DemonHuntersHandbook(FilterState),
    DragonslayersHandbook(FilterState),
    DungeoneersHandbook(FilterState),
    GiantHuntersHandbook(FilterState),
    HauntedHeroesHandbook(FilterState),
    HealersHandbook(FilterState),
    MonsterHuntersHandbook(FilterState),
    MonsterSummonersHandbook(FilterState),
    PlaneHoppersHandbook(FilterState),
    SpymastersHandbook(FilterState),
    UndeadSlayerHandbook(FilterState),
    TheHarrowHandbook(FilterState),
    DungeonsOfGolarion(FilterState),
    DwarvesOfGolarion(FilterState),
    GnomesOfGolarion(FilterState),
    GoblinsOfGolarion(FilterState),
    HumansOfGolarion(FilterState),
    KoboldsOfGolarion(FilterState),
    OrcsOfGolarion(FilterState),
    ChampionsOfBalance(FilterState),
    ChampionsOfCorruption(FilterState),
    ChampionsOfPurity(FilterState),
    FaithsOfCorruption(FilterState),
    FaithsOfPurity(FilterState),
    PathfinderSocietyPrimer(FilterState),
    PathfinderSocietyFieldGuide(FilterState),
    PfsS309(FilterState),
    HeroesOfTheDarklands(FilterState),
    HeroesOfTheHighCourt(FilterState),
    HeroesOfTheStreets(FilterState),
    HeroesOfTheWild(FilterState),
    InnerSeaMagic(FilterState),
    InnerSeaWorldGuide(FilterState),
    InnerSeaGods(FilterState),
    InnerSeaRaces(FilterState),
    InnerSeaIntrigue(FilterState),
    InnerSeaTemples(FilterState),
    InnerSeaMonsterCodex(FilterState),
    PiratesOfTheInnerSea(FilterState),
    KnightsOfTheInnerSea(FilterState),
    OccultAdventures(FilterState),
    OccultMysteries(FilterState),
    OccultOrigins(FilterState),
    OccultRealms(FilterState),
    MythicAdventures(FilterState),
    MythicOrigins(FilterState),
    ClassicTreasures(FilterState),
    FactionGuide(FilterState),
    CheliaxEmpireOfDevils(FilterState),
    HorsemenOfTheApocalypse(FilterState),
    Sargava(FilterState),
    Apg(FilterState),
    RivalGuide(FilterState),
    PaizoBlog(FilterState),
    DragonEmpiresPrimer(FilterState),
    LostKingdoms(FilterState),
    RotRlAeAppendix(FilterState),
    BloodOfTheNight(FilterState),
    PeopleOfTheNorth(FilterState),
    AnimalArchive(FilterState),
    ConditionCards(FilterState),
    ChronicleOfTheRighteous(FilterState),
    QuestsAndCampaigns(FilterState),
    TheDragonsDemand(FilterState),
    FaithsPhilosophies(FilterState),
    DemonsRevisited(FilterState),
    BloodOfTheMoon(FilterState),
    MagicalMarketplace(FilterState),
    OsirionLegacyOfPharaos(FilterState),
    PeopleOfTheSands(FilterState),
    BloodOfTheElements(FilterState),
    PeopleOfTheRiver(FilterState),
    TechnologyGuide(FilterState),
    PeopleOfTheStars(FilterState),
    RangedTacticsToolbox(FilterState),
    FamiliarFolio(FilterState),
    MeleeTacticsToolbox(FilterState),
    CohortsAndCompanions(FilterState),
    DirtyTacticsToolbox(FilterState),
    BlackMarkets(FilterState),
    AgentsOfEvil(FilterState),
    ArcaneAnthology(FilterState),
    BloodOfShadows(FilterState),
    MagicTacticsToolbox(FilterState),
    LegacyOfDragons(FilterState),
    HorrorAdventures(FilterState),
    PlanesOfPower(FilterState),
    DivineAnthology(FilterState),
    CurseOfTheCrimsonThroneChapterAppendix(FilterState),
    BloodOfTheBeast(FilterState),
    PathsOfTheRighteous(FilterState),
    TheFirstWorldRealmOfTheFey(FilterState),
    SeekersOfSecrets(FilterState),
    VillainCodex(FilterState),
    QadiraJewelOfTheEast(FilterState),
    PsychicAnthology(FilterState),
    LegacyOfTheFirstWorld(FilterState),
    AdventurersGuide(FilterState),
    AdventurersArmory2(FilterState),
    AquaticAdventures(FilterState),
    BookOfTheDamned(FilterState),
    PlanarAdventures(FilterState),
    SwordOfAir(FilterState),
    RappanAthuk(FilterState),
    DistantRealms(FilterState),
    AP29(FilterState),
    AP30(FilterState),
    AP35(FilterState),
    AP42(FilterState),
    AP50(FilterState),
    AP55(FilterState),
    AP56(FilterState),
    AP62(FilterState),
    AP64(FilterState),
    AP65(FilterState),
    AP67(FilterState),
    AP68(FilterState),
    AP69(FilterState),
    AP71(FilterState),
    AP74(FilterState),
    AP77(FilterState),
    AP78(FilterState),
    AP80(FilterState),
    AP81(FilterState),
    AP82(FilterState),
    AP84(FilterState),
    AP86(FilterState),
    AP89(FilterState),
    AP91(FilterState),
    AP93(FilterState),
    AP95(FilterState),
    AP102(FilterState),
    AP107(FilterState),
    AP110(FilterState),
    AP113(FilterState),
    AP115(FilterState),
    AP116(FilterState),
    AP117(FilterState),
    AP119(FilterState),
    AP131(FilterState),
    AP134(FilterState),
    AP135(FilterState),
    AP140(FilterState),
    AP143(FilterState),
}

impl SpellComponent {
    /// What `special_test` decides: which component flag of the record the
    /// variant reads, negated for an excluding filter.
    pub open spec fn spec_special_test(self, spell: Spell) -> bool {
        match self {
            SpellComponent::Verbal(st) => (match st {
                FilterState::Unset => true,
                FilterState::Positive => spell.verbal,
                FilterState::Negative => !spell.verbal,
            }),
            SpellComponent::Somatic(st) => (match st {
                FilterState::Unset => true,
                FilterState::Positive => spell.somatic,
                FilterState::Negative => !spell.somatic,
            }),
            SpellComponent::Material(st) => (match st {
                FilterState::Unset => true,
                FilterState::Positive => spell.material,
                FilterState::Negative => !spell.material,
            }),
        }
    }

    /// Test a spell record's component flags against this filter.
    pub fn special_test(&self, spell: &Spell) -> (r: bool)
        ensures
            r == self.spec_special_test(*spell),
    {
        match self {
            SpellComponent::Verbal(FilterState::Unset) => true,
            SpellComponent::Somatic(FilterState::Unset) => true,
            SpellComponent::Material(FilterState::Unset) => true,
            SpellComponent::Verbal(FilterState::Positive) => spell.verbal,
            SpellComponent::Somatic(FilterState::Positive) => spell.somatic,
            SpellComponent::Material(FilterState::Positive) => spell.material,
            SpellComponent::Verbal(FilterState::Negative) => !spell.verbal,
            SpellComponent::Somatic(FilterState::Negative) => !spell.somatic,
            SpellComponent::Material(FilterState::Negative) => !spell.material,
        }
    }
}

} // verus!
