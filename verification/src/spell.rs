//! The tabular spell record and the character-class filters that select
//! rows from it.

use crate::filters::FilterState;
use crate::text::push_char;
use vstd::prelude::*;

verus! {

/// One row of the spell dataset, as plain values.
#[derive(Debug, Clone)]
pub struct Spell {
    pub name: String,
    pub school: String,
    pub subschool: String,
    pub descriptors: String,
    pub spell_level: String,
    pub casting_time: String,
    pub components: String,
    pub costly_components: bool,
    pub range: String,
    pub area: String,
    pub effect: String,
    pub targets: String,
    pub duration: String,
    pub dismissible: bool,
    pub shapeable: bool,
    pub saving_throw: String,
    pub spell_resistance: String,
    pub description: String,
    pub description_formatted: String,
    pub source: String,
    pub full_text: String,
    pub verbal: bool,
    pub somatic: bool,
    pub material: bool,
    pub focus: bool,
    pub divine_focus: bool,
    pub sor: Option<u32>,
    pub wiz: Option<u32>,
    pub cleric: Option<u32>,
    pub druid: Option<u32>,
    pub ranger: Option<u32>,
    pub bard: Option<u32>,
    pub paladin: Option<u32>,
    pub alchemist: Option<u32>,
    pub summoner: Option<u32>,
    pub witch: Option<u32>,
    pub inquisitor: Option<u32>,
    pub oracle: Option<u32>,
    pub antipaladin: Option<u32>,
    pub magus: Option<u32>,
    pub adept: Option<u32>,
    pub deity: Option<String>,
    pub sla_level: u32,
    pub domain: String,
    pub short_description: String,
    pub acid: bool,
    pub air: bool,
    pub chaotic: bool,
    pub cold: bool,
    pub curse: bool,
    pub darkness: bool,
    pub death: bool,
    pub disease: bool,
    pub earth: bool,
    pub electricity: bool,
    pub emotion: bool,
    pub evil: bool,
    pub fear: bool,
    pub fire: bool,
    pub force: bool,
    pub good: bool,
    pub language_dependent: bool,
    pub lawful: bool,
    pub light: bool,
    pub mind_affecting: bool,
    pub pain: bool,
    pub poison: bool,
    pub shadow: bool,
    pub sonic: bool,
    pub water: bool,
    pub linktext: String,
    pub id: u32,
    pub material_costs: Option<u32>,
    pub bloodline: String,
    pub patron: String,
    pub mythic_text: String,
    pub augmented: String,
    pub mythic: bool,
    pub bloodrager: Option<u32>,
    pub shaman: Option<u32>,
    pub psychic: Option<u32>,
    pub medium: Option<u32>,
    pub mesmerist: Option<u32>,
    pub occultist: Option<u32>,
    pub spiritualist: Option<u32>,
    pub skald: Option<u32>,
    pub investigator: Option<u32>,
    pub hunter: Option<u32>,
    pub haunt_statistics: String,
    pub ruse: bool,
    pub draconic: bool,
    pub meditative: bool,
    pub summoner_unchained: Option<u32>,
}

/// The character classes a spell may belong to, each carrying the state of
/// its filter toggle.
#[derive(Debug, Clone, PartialEq, Eq)]
pub enum ClassType {
    Sorcerer(FilterState),
    Wizard(FilterState),
    Cleric(FilterState),
    Druid(FilterState),
    Ranger(FilterState),
    Bard(FilterState),
    Paladin(FilterState),
    Alchemist(FilterState),
    Summoner(FilterState),
    Witch(FilterState),
    Inquisitor(FilterState),
    Oracle(FilterState),
    Antipaladin(FilterState),
    Magus(FilterState),
    Adept(FilterState),
    Bloodrager(FilterState),
    Shaman(FilterState),
    Psychic(FilterState),
    Medium(FilterState),
    Mesmerist(FilterState),
    Occultist(FilterState),
    Spiritualist(FilterState),
    Skald(FilterState),
    Investigator(FilterState),
    Hunter(FilterState),
    UncSummoner(FilterState),
}

impl ClassType {
    /// The filter state carried by this class.
    pub open spec fn contained(self) -> FilterState {
        match self {
            ClassType::Sorcerer(st) => st,
            ClassType::Wizard(st) => st,
            ClassType::Cleric(st) => st,
            ClassType::Druid(st) => st,
            ClassType::Ranger(st) => st,
            ClassType::Bard(st) => st,
            ClassType::Paladin(st) => st,
            ClassType::Alchemist(st) => st,
            ClassType::Summoner(st) => st,
            ClassType::Witch(st) => st,
            ClassType::Inquisitor(st) => st,
            ClassType::Oracle(st) => st,
            ClassType::Antipaladin(st) => st,
            ClassType::Magus(st) => st,
            ClassType::Adept(st) => st,
            ClassType::Bloodrager(st) => st,
            ClassType::Shaman(st) => st,
            ClassType::Psychic(st) => st,
            ClassType::Medium(st) => st,
            ClassType::Mesmerist(st) => st,
            ClassType::Occultist(st) => st,
            ClassType::Spiritualist(st) => st,
            ClassType::Skald(st) => st,
            ClassType::Investigator(st) => st,
            ClassType::Hunter(st) => st,
            ClassType::UncSummoner(st) => st,
        }
    }

    /// The same class carrying the given filter state.
    pub open spec fn with_state(self, st: FilterState) -> ClassType {
        match self {
            ClassType::Sorcerer(_) => ClassType::Sorcerer(st),
            ClassType::Wizard(_) => ClassType::Wizard(st),
            ClassType::Cleric(_) => ClassType::Cleric(st),
            ClassType::Druid(_) => ClassType::Druid(st),
            ClassType::Ranger(_) => ClassType::Ranger(st),
            ClassType::Bard(_) => ClassType::Bard(st),
            ClassType::Paladin(_) => ClassType::Paladin(st),
            ClassType::Alchemist(_) => ClassType::Alchemist(st),
            ClassType::Summoner(_) => ClassType::Summoner(st),
            ClassType::Witch(_) => ClassType::Witch(st),
            ClassType::Inquisitor(_) => ClassType::Inquisitor(st),
            ClassType::Oracle(_) => ClassType::Oracle(st),
            ClassType::Antipaladin(_) => ClassType::Antipaladin(st),
            ClassType::Magus(_) => ClassType::Magus(st),
            ClassType::Adept(_) => ClassType::Adept(st),
            ClassType::Bloodrager(_) => ClassType::Bloodrager(st),
            ClassType::Shaman(_) => ClassType::Shaman(st),
            ClassType::Psychic(_) => ClassType::Psychic(st),
            ClassType::Medium(_) => ClassType::Medium(st),
            ClassType::Mesmerist(_) => ClassType::Mesmerist(st),
            ClassType::Occultist(_) => ClassType::Occultist(st),
            ClassType::Spiritualist(_) => ClassType::Spiritualist(st),
            ClassType::Skald(_) => ClassType::Skald(st),
            ClassType::Investigator(_) => ClassType::Investigator(st),
            ClassType::Hunter(_) => ClassType::Hunter(st),
            ClassType::UncSummoner(_) => ClassType::UncSummoner(st),
        }
    }

    /// The display name of this class.
    pub open spec fn spec_title(self) -> Seq<char> {
        match self {
            ClassType::Sorcerer(_) => "Sorcerer"@,
            ClassType::Wizard(_) => "Wizard"@,
            ClassType::Cleric(_) => "Cleric"@,
            ClassType::Druid(_) => "Druid"@,
            ClassType::Ranger(_) => "Ranger"@,
            ClassType::Bard(_) => "Bard"@,
            ClassType::Paladin(_) => "Paladin"@,
            ClassType::Alchemist(_) => "Alchemist"@,
            ClassType::Summoner(_) => "Summoner"@,
            ClassType::Witch(_) => "Witch"@,
            ClassType::Inquisitor(_) => "Inquisitor"@,
            ClassType::Oracle(_) => "Oracle"@,
            ClassType::Antipaladin(_) => "Antipaladin"@,
            ClassType::Magus(_) => "Magus"@,
            ClassType::Adept(_) => "Adept"@,
            ClassType::Bloodrager(_) => "Bloodrager"@,
            ClassType::Shaman(_) => "Shaman"@,
            ClassType::Psychic(_) => "Psychic"@,
            ClassType::Medium(_) => "Medium"@,
            ClassType::Mesmerist(_) => "Mesmerist"@,
            ClassType::Occultist(_) => "Occultist"@,
            ClassType::Spiritualist(_) => "Spiritualist"@,
            ClassType::Skald(_) => "Skald"@,
            ClassType::Investigator(_) => "Investigator"@,
            ClassType::Hunter(_) => "Hunter"@,
            ClassType::UncSummoner(_) => "Unchained Summoner"@,
        }
    }

    /// The spell level the record assigns to this class, if any.
    pub open spec fn class_level(self, s: Spell) -> Option<u32> {
        match self {
            ClassType::Sorcerer(_) => s.sor,
            ClassType::Wizard(_) => s.wiz,
            ClassType::Cleric(_) => s.cleric,
            ClassType::Druid(_) => s.druid,
            ClassType::Ranger(_) => s.ranger,
            ClassType::Bard(_) => s.bard,
            ClassType::Paladin(_) => s.paladin,
            ClassType::Alchemist(_) => s.alchemist,
            ClassType::Summoner(_) => s.summoner,
            ClassType::Witch(_) => s.witch,
            ClassType::Inquisitor(_) => s.inquisitor,
            ClassType::Oracle(_) => s.oracle,
            ClassType::Antipaladin(_) => s.antipaladin,
            ClassType::Magus(_) => s.magus,
            ClassType::Adept(_) => s.adept,
            ClassType::Bloodrager(_) => s.bloodrager,
            ClassType::Shaman(_) => s.shaman,
            ClassType::Psychic(_) => s.psychic,
            ClassType::Medium(_) => s.medium,
            ClassType::Mesmerist(_) => s.mesmerist,
            ClassType::Occultist(_) => s.occultist,
            ClassType::Spiritualist(_) => s.spiritualist,
            ClassType::Skald(_) => s.skald,
            ClassType::Investigator(_) => s.investigator,
            ClassType::Hunter(_) => s.hunter,
            ClassType::UncSummoner(_) => s.summoner_unchained,
        }
    }

    /// What `get_value` returns: the class's level for the spell, read only
    /// when the filter requires the class.
    pub open spec fn spec_get_value(self, s: Spell) -> Option<u32> {
        if self.contained() is Positive {
            self.class_level(s)
        } else {
            None
        }
    }

    /// What `test_cls` decides: a required class must have a level for the
    /// spell, an excluded class must not, and an inactive filter rejects.
    pub open spec fn spec_test_cls(self, s: Spell) -> bool {
        match self.contained() {
            FilterState::Positive => self.class_level(s) is Some,
            FilterState::Negative => self.class_level(s) is None,
            FilterState::Unset => false,
        }
    }

    /// All classes, each with an inactive filter.
    pub open spec fn spec_all() -> Seq<ClassType> {
        seq![
            ClassType::Sorcerer(FilterState::Unset),
            ClassType::Wizard(FilterState::Unset),
            ClassType::Cleric(FilterState::Unset),
            ClassType::Druid(FilterState::Unset),
            ClassType::Ranger(FilterState::Unset),
            ClassType::Bard(FilterState::Unset),
            ClassType::Paladin(FilterState::Unset),
            ClassType::Alchemist(FilterState::Unset),
            ClassType::Summoner(FilterState::Unset),
            ClassType::Witch(FilterState::Unset),
            ClassType::Inquisitor(FilterState::Unset),
            ClassType::Oracle(FilterState::Unset),
            ClassType::Antipaladin(FilterState::Unset),
            ClassType::Magus(FilterState::Unset),
            ClassType::Adept(FilterState::Unset),
            ClassType::Bloodrager(FilterState::Unset),
            ClassType::Shaman(FilterState::Unset),
            ClassType::Psychic(FilterState::Unset),
            ClassType::Medium(FilterState::Unset),
            ClassType::Mesmerist(FilterState::Unset),
            ClassType::Occultist(FilterState::Unset),
            ClassType::Spiritualist(FilterState::Unset),
            ClassType::Skald(FilterState::Unset),
            ClassType::Investigator(FilterState::Unset),
            ClassType::Hunter(FilterState::Unset),
            ClassType::UncSummoner(FilterState::Unset),
        ]
    }

    /// The display name of this class.
    pub fn title(&self) -> (r: String)
        ensures
            r@ == self.spec_title(),
    {
        let t: &str = match self {
            ClassType::Sorcerer(_) => "Sorcerer",
            ClassType::Wizard(_) => "Wizard",
            ClassType::Cleric(_) => "Cleric",
            ClassType::Druid(_) => "Druid",
            ClassType::Ranger(_) => "Ranger",
            ClassType::Bard(_) => "Bard",
            ClassType::Paladin(_) => "Paladin",
            ClassType::Alchemist(_) => "Alchemist",
            ClassType::Summoner(_) => "Summoner",
            ClassType::Witch(_) => "Witch",
            ClassType::Inquisitor(_) => "Inquisitor",
            ClassType::Oracle(_) => "Oracle",
            ClassType::Antipaladin(_) => "Antipaladin",
            ClassType::Magus(_) => "Magus",
            ClassType::Adept(_) => "Adept",
            ClassType::Bloodrager(_) => "Bloodrager",
            ClassType::Shaman(_) => "Shaman",
            ClassType::Psychic(_) => "Psychic",
            ClassType::Medium(_) => "Medium",
            ClassType::Mesmerist(_) => "Mesmerist",
            ClassType::Occultist(_) => "Occultist",
            ClassType::Spiritualist(_) => "Spiritualist",
            ClassType::Skald(_) => "Skald",
            ClassType::Investigator(_) => "Investigator",
            ClassType::Hunter(_) => "Hunter",
            ClassType::UncSummoner(_) => "Unchained Summoner",
        };
        t.to_owned()
    }

    /// The spell level the record assigns to this class, as plain data.
    fn level_of(&self, spell: &Spell) -> (r: Option<u32>)
        ensures
            r == self.class_level(*spell),
    {
        match self {
            ClassType::Sorcerer(_) => spell.sor,
            ClassType::Wizard(_) => spell.wiz,
            ClassType::Cleric(_) => spell.cleric,
            ClassType::Druid(_) => spell.druid,
            ClassType::Ranger(_) => spell.ranger,
            ClassType::Bard(_) => spell.bard,
            ClassType::Paladin(_) => spell.paladin,
            ClassType::Alchemist(_) => spell.alchemist,
            ClassType::Summoner(_) => spell.summoner,
            ClassType::Witch(_) => spell.witch,
            ClassType::Inquisitor(_) => spell.inquisitor,
            ClassType::Oracle(_) => spell.oracle,
            ClassType::Antipaladin(_) => spell.antipaladin,
            ClassType::Magus(_) => spell.magus,
            ClassType::Adept(_) => spell.adept,
            ClassType::Bloodrager(_) => spell.bloodrager,
            ClassType::Shaman(_) => spell.shaman,
            ClassType::Psychic(_) => spell.psychic,
            ClassType::Medium(_) => spell.medium,
            ClassType::Mesmerist(_) => spell.mesmerist,
            ClassType::Occultist(_) => spell.occultist,
            ClassType::Spiritualist(_) => spell.spiritualist,
            ClassType::Skald(_) => spell.skald,
            ClassType::Investigator(_) => spell.investigator,
            ClassType::Hunter(_) => spell.hunter,
            ClassType::UncSummoner(_) => spell.summoner_unchained,
        }
    }

    /// The spell level the record assigns to this class, when the filter
    /// requires the class.
    pub fn get_value(&self, spell: &Spell) -> (r: Option<u32>)
        ensures
            r == self.spec_get_value(*spell),
    {
        match self.get_contained() {
            FilterState::Positive => self.level_of(spell),
            _ => None,
        }
    }

    /// All classes, each with an inactive filter.
    pub fn get_all() -> (r: Vec<ClassType>)
        ensures
            r@ == Self::spec_all(),
    {
        let r: Vec<ClassType> = vec![
            ClassType::Sorcerer(FilterState::Unset),
            ClassType::Wizard(FilterState::Unset),
            ClassType::Cleric(FilterState::Unset),
            ClassType::Druid(FilterState::Unset),
            ClassType::Ranger(FilterState::Unset),
            ClassType::Bard(FilterState::Unset),
            ClassType::Paladin(FilterState::Unset),
            ClassType::Alchemist(FilterState::Unset),
            ClassType::Summoner(FilterState::Unset),
            ClassType::Witch(FilterState::Unset),
            ClassType::Inquisitor(FilterState::Unset),
            ClassType::Oracle(FilterState::Unset),
            ClassType::Antipaladin(FilterState::Unset),
            ClassType::Magus(FilterState::Unset),
            ClassType::Adept(FilterState::Unset),
            ClassType::Bloodrager(FilterState::Unset),
            ClassType::Shaman(FilterState::Unset),
            ClassType::Psychic(FilterState::Unset),
            ClassType::Medium(FilterState::Unset),
            ClassType::Mesmerist(FilterState::Unset),
            ClassType::Occultist(FilterState::Unset),
            ClassType::Spiritualist(FilterState::Unset),
            ClassType::Skald(FilterState::Unset),
            ClassType::Investigator(FilterState::Unset),
            ClassType::Hunter(FilterState::Unset),
            ClassType::UncSummoner(FilterState::Unset),
        ];
        proof {
            assert(r@ =~= Self::spec_all());
        }
        r
    }

    /// The filter state carried by this class.
    pub fn get_contained(&self) -> (r: &FilterState)
        ensures
            *r == self.contained(),
    {
        match self {
            ClassType::Sorcerer(st) => st,
            ClassType::Wizard(st) => st,
            ClassType::Cleric(st) => st,
            ClassType::Druid(st) => st,
            ClassType::Ranger(st) => st,
            ClassType::Bard(st) => st,
            ClassType::Paladin(st) => st,
            ClassType::Alchemist(st) => st,
            ClassType::Summoner(st) => st,
            ClassType::Witch(st) => st,
            ClassType::Inquisitor(st) => st,
            ClassType::Oracle(st) => st,
            ClassType::Antipaladin(st) => st,
            ClassType::Magus(st) => st,
            ClassType::Adept(st) => st,
            ClassType::Bloodrager(st) => st,
            ClassType::Shaman(st) => st,
            ClassType::Psychic(st) => st,
            ClassType::Medium(st) => st,
            ClassType::Mesmerist(st) => st,
            ClassType::Occultist(st) => st,
            ClassType::Spiritualist(st) => st,
            ClassType::Skald(st) => st,
            ClassType::Investigator(st) => st,
            ClassType::Hunter(st) => st,
            ClassType::UncSummoner(st) => st,
        }
    }

    /// The class with its filter cycled forward.
    pub fn n(&self) -> (r: Self)
        ensures
            r == self.with_state(self.contained().spec_n()),
    {
        match self {
            ClassType::Sorcerer(st) => ClassType::Sorcerer(st.n()),
            ClassType::Wizard(st) => ClassType::Wizard(st.n()),
            ClassType::Cleric(st) => ClassType::Cleric(st.n()),
            ClassType::Druid(st) => ClassType::Druid(st.n()),
            ClassType::Ranger(st) => ClassType::Ranger(st.n()),
            ClassType::Bard(st) => ClassType::Bard(st.n()),
            ClassType::Paladin(st) => ClassType::Paladin(st.n()),
            ClassType::Alchemist(st) => ClassType::Alchemist(st.n()),
            ClassType::Summoner(st) => ClassType::Summoner(st.n()),
            ClassType::Witch(st) => ClassType::Witch(st.n()),
            ClassType::Inquisitor(st) => ClassType::Inquisitor(st.n()),
            ClassType::Oracle(st) => ClassType::Oracle(st.n()),
            ClassType::Antipaladin(st) => ClassType::Antipaladin(st.n()),
            ClassType::Magus(st) => ClassType::Magus(st.n()),
            ClassType::Adept(st) => ClassType::Adept(st.n()),
            ClassType::Bloodrager(st) => ClassType::Bloodrager(st.n()),
            ClassType::Shaman(st) => ClassType::Shaman(st.n()),
            ClassType::Psychic(st) => ClassType::Psychic(st.n()),
            ClassType::Medium(st) => ClassType::Medium(st.n()),
            ClassType::Mesmerist(st) => ClassType::Mesmerist(st.n()),
            ClassType::Occultist(st) => ClassType::Occultist(st.n()),
            ClassType::Spiritualist(st) => ClassType::Spiritualist(st.n()),
            ClassType::Skald(st) => ClassType::Skald(st.n()),
            ClassType::Investigator(st) => ClassType::Investigator(st.n()),
            ClassType::Hunter(st) => ClassType::Hunter(st.n()),
            ClassType::UncSummoner(st) => ClassType::UncSummoner(st.n()),
        }
    }

    /// The class with its filter cycled backward.
    pub fn p(&self) -> (r: Self)
        ensures
            r == self.with_state(self.contained().spec_p()),
    {
        match self {
            ClassType::Sorcerer(st) => ClassType::Sorcerer(st.p()),
            ClassType::Wizard(st) => ClassType::Wizard(st.p()),
            ClassType::Cleric(st) => ClassType::Cleric(st.p()),
            ClassType::Druid(st) => ClassType::Druid(st.p()),
            ClassType::Ranger(st) => ClassType::Ranger(st.p()),
            ClassType::Bard(st) => ClassType::Bard(st.p()),
            ClassType::Paladin(st) => ClassType::Paladin(st.p()),
            ClassType::Alchemist(st) => ClassType::Alchemist(st.p()),
            ClassType::Summoner(st) => ClassType::Summoner(st.p()),
            ClassType::Witch(st) => ClassType::Witch(st.p()),
            ClassType::Inquisitor(st) => ClassType::Inquisitor(st.p()),
            ClassType::Oracle(st) => ClassType::Oracle(st.p()),
            ClassType::Antipaladin(st) => ClassType::Antipaladin(st.p()),
            ClassType::Magus(st) => ClassType::Magus(st.p()),
            ClassType::Adept(st) => ClassType::Adept(st.p()),
            ClassType::Bloodrager(st) => ClassType::Bloodrager(st.p()),
            ClassType::Shaman(st) => ClassType::Shaman(st.p()),
            ClassType::Psychic(st) => ClassType::Psychic(st.p()),
            ClassType::Medium(st) => ClassType::Medium(st.p()),
            ClassType::Mesmerist(st) => ClassType::Mesmerist(st.p()),
            ClassType::Occultist(st) => ClassType::Occultist(st.p()),
            ClassType::Spiritualist(st) => ClassType::Spiritualist(st.p()),
            ClassType::Skald(st) => ClassType::Skald(st.p()),
            ClassType::Investigator(st) => ClassType::Investigator(st.p()),
            ClassType::Hunter(st) => ClassType::Hunter(st.p()),
            ClassType::UncSummoner(st) => ClassType::UncSummoner(st.p()),
        }
    }

    /// Test a spell record against this class filter.
    pub fn test_cls(&self, spell: &Spell) -> (r: bool)
        ensures
            r == self.spec_test_cls(*spell),
    {
        match self.get_contained() {
            FilterState::Positive => self.level_of(spell).is_some(),
            FilterState::Negative => self.level_of(spell).is_none(),
            FilterState::Unset => false,
        }
    }

    /// Is this class filter actively constraining anything?
    pub fn some_filter(&self) -> (r: bool)
        ensures
            r == self.contained().spec_some_filter(),
    {
        match self.get_contained() {
            FilterState::Unset => false,
            _ => true,
        }
    }
}

/// The decimal digits of `n`, most significant first.
pub open spec fn spec_dec(n: nat) -> Seq<char>
    decreases n,
{
    if n < 10 {
        seq![((48 + n) as u32) as char]
    } else {
        spec_dec(n / 10).push(((48 + n % 10) as u32) as char)
    }
}

/// The character of one decimal digit.
fn digit_char(d: u32) -> (c: char)
    requires
        d < 10,
    ensures
        c == (((48 + d) as u32) as char),
{
    match char::from_u32(48 + d) {
        Some(c) => c,
        None => {
            proof {
                assert(false);
            }
            '0'
        },
    }
}

/// The decimal notation of `n`.
pub fn u32_to_dec(n: u32) -> (r: String)
    ensures
        r@ == spec_dec(n as nat),
    decreases n,
{
    if n < 10 {
        let mut s = String::new();
        push_char(&mut s, digit_char(n));
        proof {
            assert(s@ =~= spec_dec(n as nat));
        }
        s
    } else {
        let mut s = u32_to_dec(n / 10);
        push_char(&mut s, digit_char(n % 10));
        s
    }
}

/// The given texts joined with `/` between them.
pub open spec fn spec_join(parts: Seq<Seq<char>>) -> Seq<char>
    decreases parts.len(),
{
    if parts.len() == 0 {
        Seq::empty()
    } else if parts.len() == 1 {
        parts[0]
    } else {
        spec_join(parts.drop_last()) + seq!['/'] + parts.last()
    }
}

/// The level entry one class contributes: the class's level for the spell
/// in decimal, or a dash when the class has none.
pub open spec fn level_entry(c: ClassType, s: Spell) -> Seq<char> {
    match c.class_level(s) {
        Some(u) => spec_dec(u as nat),
        None => seq!['-'],
    }
}

/// The level entries of the classes whose filter requires them, in order.
pub open spec fn spec_levels(classes: Seq<ClassType>, s: Spell) -> Seq<Seq<char>>
    decreases classes.len(),
{
    if classes.len() == 0 {
        Seq::empty()
    } else {
        spec_levels(classes.drop_last(), s) + (if classes.last().contained() is Positive {
            seq![level_entry(classes.last(), s)]
        } else {
            Seq::empty()
        })
    }
}

/// Whether the class filters, combined with OR or with AND, accept the
/// spell. With OR, a spell passes when no filter is active or some active
/// filter accepts it; with AND, every active filter must accept it.
pub open spec fn spec_class_ok(class_sel_or: bool, classes: Seq<ClassType>, s: Spell) -> bool {
    if class_sel_or {
        (forall|j: int|
            0 <= j < classes.len() ==> !(#[trigger] classes[j]).contained().spec_some_filter()) || (
        exists|j: int|
            0 <= j < classes.len() && (#[trigger] classes[j]).contained().spec_some_filter()
                && classes[j].spec_test_cls(s))
    } else {
        forall|j: int|
            0 <= j < classes.len() ==> ((#[trigger] classes[j]).contained().spec_some_filter()
                ==> classes[j].spec_test_cls(s))
    }
}

/// The level column shown for the spell: the joined per-class levels, or
/// the spell-like-ability level when no class is required; a stray `/`
/// entry would fall back to the spell-like-ability level with the joined
/// list in parentheses.
pub open spec fn spec_level_text(classes: Seq<ClassType>, s: Spell) -> Seq<char> {
    let lv = spec_levels(classes, s);
    if lv.len() == 0 {
        spec_dec(s.sla_level as nat)
    } else if exists|k: int| 0 <= k < lv.len() && #[trigger] lv[k] == seq!['/'] {
        spec_dec(s.sla_level as nat) + seq!['('] + spec_join(lv) + seq![')']
    } else {
        spec_join(lv)
    }
}

impl Spell {
    /// Apply the class filters to this spell. A spell that passes is paired
    /// with the text for its level column; a spell that fails disappears.
    pub fn filter_map_level(&self, class_sel_or: bool, classes: &[ClassType]) -> (r: Option<
        (&Self, String),
    >)
        ensures
            r is Some <==> spec_class_ok(class_sel_or, classes@, *self),
            r matches Some((sp, lv)) ==> sp == self && lv@ == spec_level_text(classes@, *self),
    {
        let cn = classes.len();
        let res: bool;
        if class_sel_or {
            let mut any_active = false;
            let mut any_pass = false;
            let mut j: usize = 0;
            while j < cn
                invariant
                    cn == classes@.len(),
                    j <= cn,
                    any_active == exists|k: int|
                        0 <= k < j && (#[trigger] classes@[k]).contained().spec_some_filter(),
                    any_pass == exists|k: int|
                        0 <= k < j && (#[trigger] classes@[k]).contained().spec_some_filter()
                            && classes@[k].spec_test_cls(*self),
                decreases cn - j,
            {
                if classes[j].some_filter() {
                    any_active = true;
                    if classes[j].test_cls(self) {
                        any_pass = true;
                    }
                }
                j += 1;
            }
            res = !any_active || any_pass;
        } else {
            let mut all_pass = true;
            let mut j: usize = 0;
            while j < cn
                invariant
                    cn == classes@.len(),
                    j <= cn,
                    all_pass == forall|k: int|
                        0 <= k < j ==> ((#[trigger] classes@[k]).contained().spec_some_filter()
                            ==> classes@[k].spec_test_cls(*self)),
                decreases cn - j,
            {
                if classes[j].some_filter() && !classes[j].test_cls(self) {
                    all_pass = false;
                }
                j += 1;
            }
            res = all_pass;
        }
        if !res {
            return None;
        }
        let mut lvls: Vec<String> = Vec::new();
        let mut j: usize = 0;
        while j < cn
            invariant
                cn == classes@.len(),
                j <= cn,
                lvls@.len() == spec_levels(classes@.subrange(0, j as int), *self).len(),
                forall|k: int|
                    0 <= k < lvls@.len() ==> (#[trigger] lvls@[k])@ == spec_levels(
                        classes@.subrange(0, j as int),
                        *self,
                    )[k],
            decreases cn - j,
        {
            let ghost prefix = classes@.subrange(0, j as int);
            let active = match classes[j].get_contained() {
                FilterState::Positive => true,
                _ => false,
            };
            if active {
                let entry = match classes[j].get_value(self) {
                    Some(u) => u32_to_dec(u),
                    None => {
                        let mut d = String::new();
                        push_char(&mut d, '-');
                        proof {
                            assert(d@ =~= seq!['-']);
                        }
                        d
                    },
                };
                proof {
                    assert(entry@ == level_entry(classes@[j as int], *self));
                }
                lvls.push(entry);
            }
            proof {
                let next = classes@.subrange(0, j + 1);
                assert(next.drop_last() =~= prefix);
                assert(next.last() == classes@[j as int]);
            }
            j += 1;
        }
        proof {
            assert(classes@.subrange(0, cn as int) =~= classes@);
        }
        let ghost lv = spec_levels(classes@, *self);
        let rv: String;
        if lvls.len() == 0 {
            rv = u32_to_dec(self.sla_level);
        } else {
            let mut has_slash = false;
            let mut k: usize = 0;
            while k < lvls.len()
                invariant
                    lvls@.len() == lv.len(),
                    forall|m: int| 0 <= m < lv.len() ==> (#[trigger] lvls@[m])@ == lv[m],
                    k <= lvls@.len(),
                    has_slash == exists|m: int| 0 <= m < k && #[trigger] lv[m] == seq!['/'],
                decreases lvls@.len() - k,
            {
                let mut slash = String::new();
                push_char(&mut slash, '/');
                proof {
                    assert(slash@ =~= seq!['/']);
                }
                if lvls[k] == slash {
                    has_slash = true;
                    proof {
                        assert(lv[k as int] == seq!['/']);
                    }
                }
                k += 1;
            }
            proof {
                assert(lvls@.map_values(|p: String| p@) =~= lv);
            }
            let joined = join_slash(&lvls);
            if has_slash {
                let mut out = u32_to_dec(self.sla_level);
                push_char(&mut out, '(');
                out.append(joined.as_str());
                push_char(&mut out, ')');
                proof {
                    assert(out@ =~= spec_dec(self.sla_level as nat) + seq!['('] + spec_join(lv)
                        + seq![')']);
                }
                rv = out;
            } else {
                rv = joined;
            }
        }
        Some((self, rv))
    }
}

/// Join the given texts with `/` between them.
fn join_slash(parts: &Vec<String>) -> (r: String)
    ensures
        r@ == spec_join(parts@.map_values(|p: String| p@)),
{
    let ghost pv = parts@.map_values(|p: String| p@);
    let mut out = String::new();
    let mut k: usize = 0;
    proof {
        assert(pv.len() == parts@.len());
    }
    while k < parts.len()
        invariant
            pv == parts@.map_values(|p: String| p@),
            pv.len() == parts@.len(),
            k <= parts@.len(),
            out@ == spec_join(pv.subrange(0, k as int)),
        decreases parts@.len() - k,
    {
        if k > 0 {
            push_char(&mut out, '/');
        }
        out.append(parts[k].as_str());
        proof {
            let next = pv.subrange(0, k + 1);
            assert(next.drop_last() =~= pv.subrange(0, k as int));
            assert(next.last() == pv[k as int]);
            if k == 0 {
                assert(out@ =~= spec_join(next));
            } else {
                assert(out@ =~= spec_join(pv.subrange(0, k as int)) + seq!['/'] + pv[k as int]);
            }
        }
        k += 1;
    }
    proof {
        assert(pv.subrange(0, pv.len() as int) =~= pv);
    }
    out
}

} // verus!
