use spell_search::transform::SpellDescriptionStruct;

fn text(s: &str) -> SpellDescriptionStruct {
    SpellDescriptionStruct::Text(s.to_string())
}

fn sample_tree() -> SpellDescriptionStruct {
    SpellDescriptionStruct::Body(vec![
        SpellDescriptionStruct::Paragraph(vec![
            text("Cast "),
            SpellDescriptionStruct::Italics("Fireball".to_string()),
            text(" at "),
            SpellDescriptionStruct::Bold("will".to_string()),
            text("."),
        ]),
        SpellDescriptionStruct::Table(vec![
            SpellDescriptionStruct::Thead(vec![SpellDescriptionStruct::Row(vec![
                SpellDescriptionStruct::Header(vec![text("A")]),
            ])]),
            SpellDescriptionStruct::Tbody(vec![SpellDescriptionStruct::Row(vec![
                SpellDescriptionStruct::Cell(vec![text("1")]),
            ])]),
        ]),
        SpellDescriptionStruct::Listing(vec![
            SpellDescriptionStruct::Line(vec![text("first")]),
            SpellDescriptionStruct::Line(vec![SpellDescriptionStruct::Br]),
        ]),
        SpellDescriptionStruct::Caption(vec![]),
        SpellDescriptionStruct::Sup(vec![text("2")]),
        SpellDescriptionStruct::Tfoot(vec![]),
    ])
}

#[test]
fn round_trip_sample() {
    let tree = sample_tree();
    let encoded = tree.serialize();
    let back = SpellDescriptionStruct::deserialize(&encoded).unwrap();
    assert!(back == tree);
}

#[test]
fn round_trip_every_variant_shape() {
    let leaves = vec![
        SpellDescriptionStruct::Br,
        SpellDescriptionStruct::Italics(String::new()),
        SpellDescriptionStruct::Bold("b".to_string()),
        text(""),
        text("plain"),
    ];
    for v in leaves {
        let back = SpellDescriptionStruct::deserialize(&v.serialize()).unwrap();
        assert!(back == v);
    }
}

#[test]
fn round_trip_unicode_text() {
    let v = text("F\u{fc}\u{fc}r \u{2713} \u{1F409}");
    let back = SpellDescriptionStruct::deserialize(&v.serialize()).unwrap();
    assert!(back == v);
}

#[test]
fn deserialize_rejects_junk() {
    // an unknown tag token
    assert!(SpellDescriptionStruct::deserialize(&vec![99u64]).is_none());
    // a truncated container
    assert!(SpellDescriptionStruct::deserialize(&vec![0u64, 2, 6]).is_none());
    // a surrogate code point inside a text leaf
    assert!(SpellDescriptionStruct::deserialize(&vec![16u64, 1, 0xD800]).is_none());
    // leftover tokens after a whole tree
    assert!(SpellDescriptionStruct::deserialize(&vec![6u64, 6u64]).is_none());
    // the empty stream
    assert!(SpellDescriptionStruct::deserialize(&Vec::new()).is_none());
}

#[test]
fn serialized_form_is_stable() {
    // Br is one tag token; a text leaf is its tag, its length, its code points
    assert_eq!(SpellDescriptionStruct::Br.serialize(), vec![6u64]);
    assert_eq!(text("Az").serialize(), vec![16u64, 2, 65, 122]);
    let body = SpellDescriptionStruct::Body(vec![SpellDescriptionStruct::Br]);
    assert_eq!(body.serialize(), vec![0u64, 1, 6]);
}

#[test]
fn structural_equality_is_deep() {
    assert!(sample_tree() == sample_tree());
    let a = SpellDescriptionStruct::Body(vec![text("x")]);
    let b = SpellDescriptionStruct::Body(vec![text("y")]);
    let c = SpellDescriptionStruct::Paragraph(vec![text("x")]);
    assert!(!(a == b));
    assert!(!(a == c));
}
