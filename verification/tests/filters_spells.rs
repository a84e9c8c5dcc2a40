use spell_search::filters::{FilterState, SpellComponent};
use spell_search::spell::{u32_to_dec, ClassType, Spell};

fn blank_spell() -> Spell {
    Spell {
        name: String::new(),
        school: String::new(),
        subschool: String::new(),
        descriptors: String::new(),
        spell_level: String::new(),
        casting_time: String::new(),
        components: String::new(),
        costly_components: false,
        range: String::new(),
        area: String::new(),
        effect: String::new(),
        targets: String::new(),
        duration: String::new(),
        dismissible: false,
        shapeable: false,
        saving_throw: String::new(),
        spell_resistance: String::new(),
        description: String::new(),
        description_formatted: String::new(),
        source: String::new(),
        full_text: String::new(),
        verbal: false,
        somatic: false,
        material: false,
        focus: false,
        divine_focus: false,
        sor: None,
        wiz: None,
        cleric: None,
        druid: None,
        ranger: None,
        bard: None,
        paladin: None,
        alchemist: None,
        summoner: None,
        witch: None,
        inquisitor: None,
        oracle: None,
        antipaladin: None,
        magus: None,
        adept: None,
        deity: None,
        sla_level: 0,
        domain: String::new(),
        short_description: String::new(),
        acid: false,
        air: false,
        chaotic: false,
        cold: false,
        curse: false,
        darkness: false,
        death: false,
        disease: false,
        earth: false,
        electricity: false,
        emotion: false,
        evil: false,
        fear: false,
        fire: false,
        force: false,
        good: false,
        language_dependent: false,
        lawful: false,
        light: false,
        mind_affecting: false,
        pain: false,
        poison: false,
        shadow: false,
        sonic: false,
        water: false,
        linktext: String::new(),
        id: 0,
        material_costs: None,
        bloodline: String::new(),
        patron: String::new(),
        mythic_text: String::new(),
        augmented: String::new(),
        mythic: false,
        bloodrager: None,
        shaman: None,
        psychic: None,
        medium: None,
        mesmerist: None,
        occultist: None,
        spiritualist: None,
        skald: None,
        investigator: None,
        hunter: None,
        haunt_statistics: String::new(),
        ruse: false,
        draconic: false,
        meditative: false,
        summoner_unchained: None,
    }
}

#[test]
fn filter_state_cycles() {
    assert_eq!(FilterState::Unset.n(), FilterState::Positive);
    assert_eq!(FilterState::Positive.n(), FilterState::Negative);
    assert_eq!(FilterState::Negative.n(), FilterState::Unset);
    assert_eq!(FilterState::Unset.p(), FilterState::Negative);
    assert_eq!(FilterState::Positive.p(), FilterState::Unset);
    assert_eq!(FilterState::Negative.p(), FilterState::Positive);
    assert_eq!(FilterState::Positive.n().p(), FilterState::Positive);
}

#[test]
fn filter_state_tests_substrings() {
    assert!(FilterState::Unset.test("anything", "xyz"));
    assert!(FilterState::Positive.test("Fireball", "fire"));
    assert!(!FilterState::Positive.test("Fireball", "ice"));
    assert!(!FilterState::Negative.test("Fireball", "BALL"));
    assert!(FilterState::Negative.test("Fireball", "frost"));
    assert!(FilterState::Positive.test("abc", ""));
}

#[test]
fn class_type_titles_and_all() {
    let all = ClassType::get_all();
    assert_eq!(all.len(), 26);
    assert_eq!(all[0], ClassType::Sorcerer(FilterState::Unset));
    assert_eq!(all[25], ClassType::UncSummoner(FilterState::Unset));
    assert_eq!(ClassType::Wizard(FilterState::Unset).title(), "Wizard");
    assert_eq!(ClassType::UncSummoner(FilterState::Unset).title(), "Unchained Summoner");
}

#[test]
fn class_type_cycles_keep_class() {
    let c = ClassType::Druid(FilterState::Unset);
    assert_eq!(c.n(), ClassType::Druid(FilterState::Positive));
    assert_eq!(c.n().n(), ClassType::Druid(FilterState::Negative));
    assert_eq!(c.p(), ClassType::Druid(FilterState::Negative));
    assert_eq!(*c.n().get_contained(), FilterState::Positive);
}

#[test]
fn class_type_levels_and_tests() {
    let mut sp = blank_spell();
    sp.wiz = Some(3);
    assert_eq!(ClassType::Wizard(FilterState::Positive).get_value(&sp), Some(3));
    assert_eq!(ClassType::Wizard(FilterState::Unset).get_value(&sp), None);
    assert!(ClassType::Wizard(FilterState::Positive).test_cls(&sp));
    assert!(!ClassType::Cleric(FilterState::Positive).test_cls(&sp));
    assert!(ClassType::Cleric(FilterState::Negative).test_cls(&sp));
    assert!(!ClassType::Wizard(FilterState::Unset).test_cls(&sp));
}

#[test]
fn component_filters() {
    let mut sp = blank_spell();
    sp.verbal = true;
    assert!(SpellComponent::Verbal(FilterState::Unset).special_test(&sp));
    assert!(SpellComponent::Verbal(FilterState::Positive).special_test(&sp));
    assert!(!SpellComponent::Verbal(FilterState::Negative).special_test(&sp));
    assert!(!SpellComponent::Somatic(FilterState::Positive).special_test(&sp));
    assert!(SpellComponent::Somatic(FilterState::Negative).special_test(&sp));
}

#[test]
fn decimal_notation() {
    assert_eq!(u32_to_dec(0), "0");
    assert_eq!(u32_to_dec(7), "7");
    assert_eq!(u32_to_dec(42), "42");
    assert_eq!(u32_to_dec(305), "305");
    assert_eq!(u32_to_dec(4294967295), "4294967295");
}

#[test]
fn filter_map_level_joins_levels() {
    let mut sp = blank_spell();
    sp.wiz = Some(3);
    sp.cleric = None;
    sp.sla_level = 9;
    let classes = vec![
        ClassType::Wizard(FilterState::Positive),
        ClassType::Cleric(FilterState::Positive),
    ];
    // with AND, the cleric filter fails the spell
    assert!(sp.filter_map_level(false, &classes).is_none());
    // with OR, the wizard filter passes it; both required classes list a level
    let (_, lv) = sp.filter_map_level(true, &classes).unwrap();
    assert_eq!(lv, "3/-");
}

#[test]
fn filter_map_level_falls_back_to_sla() {
    let mut sp = blank_spell();
    sp.sla_level = 5;
    let classes = vec![ClassType::Wizard(FilterState::Unset)];
    let (_, lv) = sp.filter_map_level(false, &classes).unwrap();
    assert_eq!(lv, "5");
}
