//! The state of the result table's columns: which columns are shown and in
//! which direction each one sorts.

use vstd::prelude::*;

verus! {

/// The sort direction of one column: unsorted, ascending, or descending.
#[derive(Debug, PartialEq, Eq, Structural)]
pub enum RowOrder {
    Unsorted,
    Ascending,
    Descending,
}

impl RowOrder {
    /// The direction reached by one forward click.
    pub open spec fn spec_n(self) -> RowOrder {
        match self {
            RowOrder::Unsorted => RowOrder::Ascending,
            RowOrder::Ascending => RowOrder::Descending,
            RowOrder::Descending => RowOrder::Unsorted,
        }
    }

    /// The direction reached by one backward click; inverse of `spec_n`.
    pub open spec fn spec_p(self) -> RowOrder {
        match self {
            RowOrder::Unsorted => RowOrder::Descending,
            RowOrder::Ascending => RowOrder::Unsorted,
            RowOrder::Descending => RowOrder::Ascending,
        }
    }

    /// Cycle forward through the three directions.
    pub fn n(&self) -> (r: Self)
        ensures
            r == self.spec_n(),
    {
        match self {
            RowOrder::Unsorted => RowOrder::Ascending,
            RowOrder::Ascending => RowOrder::Descending,
            RowOrder::Descending => RowOrder::Unsorted,
        }
    }

    /// Cycle backward through the three directions.
    pub fn p(&self) -> (r: Self)
        ensures
            r == self.spec_p(),
    {
        match self {
            RowOrder::Unsorted => RowOrder::Descending,
            RowOrder::Ascending => RowOrder::Unsorted,
            RowOrder::Descending => RowOrder::Ascending,
        }
    }
}

/// The columns of the result table, each recording whether it is shown.
/// `Blank` is the sentinel for "no column".
#[derive(Debug, Clone, PartialEq, Eq, Structural)]
pub enum ColType {
    Blank,
    Name(bool),
    School(bool),
    Level(bool),
    Subschools(bool),
    Domain(bool),
    Descriptors(bool),
    Components(bool),
    Range(bool),
    Area(bool),
    Effect(bool),
    Targets(bool),
    Duration(bool),
    SavingThrow(bool),
    SpellResistance(bool),
    Description(bool),
    Source(bool),
}

impl ColType {
    /// The column's heading.
    pub open spec fn spec_title(self) -> Seq<char> {
        match self {
            ColType::Blank => ""@,
            ColType::Name(_) => "Name"@,
            ColType::School(_) => "Spellschool"@,
            ColType::Level(_) => "Level"@,
            ColType::Subschools(_) => "Subschools"@,
            ColType::Domain(_) => "Domain"@,
            ColType::Descriptors(_) => "Descriptor"@,
            ColType::Components(_) => "Components"@,
            ColType::Range(_) => "Range"@,
            ColType::Area(_) => "Area"@,
            ColType::Effect(_) => "Effect"@,
            ColType::Targets(_) => "Targets"@,
            ColType::Duration(_) => "Duration"@,
            ColType::SavingThrow(_) => "Saving Throw"@,
            ColType::SpellResistance(_) => "Spell Resistance"@,
            ColType::Description(_) => "Description"@,
            ColType::Source(_) => "Source"@,
        }
    }

    /// Whether the column is shown; the sentinel is never shown.
    pub open spec fn spec_shown(self) -> bool {
        match self {
            ColType::Blank => false,
            ColType::Name(b) => b,
            ColType::School(b) => b,
            ColType::Level(b) => b,
            ColType::Subschools(b) => b,
            ColType::Domain(b) => b,
            ColType::Descriptors(b) => b,
            ColType::Components(b) => b,
            ColType::Range(b) => b,
            ColType::Area(b) => b,
            ColType::Effect(b) => b,
            ColType::Targets(b) => b,
            ColType::Duration(b) => b,
            ColType::SavingThrow(b) => b,
            ColType::SpellResistance(b) => b,
            ColType::Description(b) => b,
            ColType::Source(b) => b,
        }
    }

    /// The column set a fresh table starts with, in display order.
    pub open spec fn spec_all() -> Seq<(ColType, RowOrder)> {
        seq![
            (ColType::Name(true), RowOrder::Unsorted),
            (ColType::School(true), RowOrder::Unsorted),
            (ColType::Level(true), RowOrder::Unsorted),
            (ColType::Subschools(false), RowOrder::Unsorted),
            (ColType::Domain(false), RowOrder::Unsorted),
            (ColType::Descriptors(false), RowOrder::Unsorted),
            (ColType::Components(false), RowOrder::Unsorted),
            (ColType::Range(false), RowOrder::Unsorted),
            (ColType::Area(false), RowOrder::Unsorted),
            (ColType::Effect(false), RowOrder::Unsorted),
            (ColType::Targets(false), RowOrder::Unsorted),
            (ColType::Duration(false), RowOrder::Unsorted),
            (ColType::SavingThrow(false), RowOrder::Unsorted),
            (ColType::SpellResistance(false), RowOrder::Unsorted),
            (ColType::Description(true), RowOrder::Unsorted),
            (ColType::Source(false), RowOrder::Unsorted),
        ]
    }

    /// The column's heading.
    pub fn title(&self) -> (r: String)
        ensures
            r@ == self.spec_title(),
    {
        let t: &str = match self {
            ColType::Blank => "",
            ColType::Name(_) => "Name",
            ColType::School(_) => "Spellschool",
            ColType::Level(_) => "Level",
            ColType::Subschools(_) => "Subschools",
            ColType::Domain(_) => "Domain",
            ColType::Descriptors(_) => "Descriptor",
            ColType::Components(_) => "Components",
            ColType::Range(_) => "Range",
            ColType::Area(_) => "Area",
            ColType::Effect(_) => "Effect",
            ColType::Targets(_) => "Targets",
            ColType::Duration(_) => "Duration",
            ColType::SavingThrow(_) => "Saving Throw",
            ColType::SpellResistance(_) => "Spell Resistance",
            ColType::Description(_) => "Description",
            ColType::Source(_) => "Source",
        };
        t.to_owned()
    }

    /// The column set a fresh table starts with.
    pub fn get_all() -> (r: Vec<(ColType, RowOrder)>)
        ensures
            r@ == Self::spec_all(),
    {
        let r: Vec<(ColType, RowOrder)> = vec![
            (ColType::Name(true), RowOrder::Unsorted),
            (ColType::School(true), RowOrder::Unsorted),
            (ColType::Level(true), RowOrder::Unsorted),
            (ColType::Subschools(false), RowOrder::Unsorted),
            (ColType::Domain(false), RowOrder::Unsorted),
            (ColType::Descriptors(false), RowOrder::Unsorted),
            (ColType::Components(false), RowOrder::Unsorted),
            (ColType::Range(false), RowOrder::Unsorted),
            (ColType::Area(false), RowOrder::Unsorted),
            (ColType::Effect(false), RowOrder::Unsorted),
            (ColType::Targets(false), RowOrder::Unsorted),
            (ColType::Duration(false), RowOrder::Unsorted),
            (ColType::SavingThrow(false), RowOrder::Unsorted),
            (ColType::SpellResistance(false), RowOrder::Unsorted),
            (ColType::Description(true), RowOrder::Unsorted),
            (ColType::Source(false), RowOrder::Unsorted),
        ];
        proof {
            assert(r@ =~= Self::spec_all());
        }
        r
    }

    /// Whether the column is shown.
    pub fn get_bool(&self) -> (r: bool)
        ensures
            r == self.spec_shown(),
    {
        match self {
            ColType::Blank => false,
            ColType::Name(b) => *b,
            ColType::School(b) => *b,
            ColType::Level(b) => *b,
            ColType::Subschools(b) => *b,
            ColType::Domain(b) => *b,
            ColType::Descriptors(b) => *b,
            ColType::Components(b) => *b,
            ColType::Range(b) => *b,
            ColType::Area(b) => *b,
            ColType::Effect(b) => *b,
            ColType::Targets(b) => *b,
            ColType::Duration(b) => *b,
            ColType::SavingThrow(b) => *b,
            ColType::SpellResistance(b) => *b,
            ColType::Description(b) => *b,
            ColType::Source(b) => *b,
        }
    }
}

} // verus!
