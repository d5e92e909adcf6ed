//! The table that gives each item of each location its pricing strategy.

use vstd::prelude::*;
use crate::error::{Error, ErrorView};
use crate::pricing::{lemma_fault_is_not_supported, ModelView, PricingModel};

verus! {

/// One line of the table: the strategy for the item `name` at `location`.
#[derive(Debug)]
pub struct PricingRule {
    pub location: String,
    pub name: String,
    pub model: PricingModel,
}

/// What a `PricingRule` is.
pub struct RuleView {
    pub location: Seq<char>,
    pub name: Seq<char>,
    pub model: ModelView,
}

impl View for PricingRule {
    type V = RuleView;

    open spec fn view(&self) -> RuleView {
        RuleView { location: self.location@, name: self.name@, model: self.model@ }
    }
}

impl DeepView for PricingRule {
    type V = RuleView;

    open spec fn deep_view(&self) -> RuleView {
        self@
    }
}

/// The table, as its lines in order.
pub type TableView = Seq<RuleView>;

/// The table of strategies. Of several lines for one item at one location
/// the first one counts.
#[derive(Debug)]
pub struct PricingTable {
    pub rules: Vec<PricingRule>,
}

impl View for PricingTable {
    type V = TableView;

    open spec fn view(&self) -> TableView {
        self.rules.deep_view()
    }
}

/// The strategy that the first line for `name` at `location` gives, where
/// there is such a line.
pub open spec fn lookup(table: TableView, location: Seq<char>, name: Seq<char>) -> Option<ModelView>
    decreases table.len(),
{
    if table.len() == 0 {
        None
    } else if table[0].location == location && table[0].name == name {
        Some(table[0].model)
    } else {
        lookup(table.skip(1), location, name)
    }
}

/// The strategy for `name` at `location`: the one that the table gives, and
/// `Rejected` where it gives none.
pub open spec fn resolve(table: TableView, location: Seq<char>, name: Seq<char>) -> ModelView {
    match lookup(table, location, name) {
        Some(model) => model,
        None => ModelView::Rejected,
    }
}

/// What the table gives is the strategy of one of its lines.
pub proof fn lemma_lookup_is_a_line(table: TableView, location: Seq<char>, name: Seq<char>)
    ensures
        lookup(table, location, name) matches Some(model) ==> exists|i: int|
            0 <= i < table.len() && (#[trigger] table[i]).model == model && table[i].location
                == location && table[i].name == name,
        lookup(table, location, name) is None ==> forall|i: int|
            0 <= i < table.len() ==> !((#[trigger] table[i]).location == location && table[i].name
                == name),
    decreases table.len(),
{
    if table.len() > 0 {
        if table[0].location == location && table[0].name == name {
        } else {
            let rest = table.skip(1);
            lemma_lookup_is_a_line(rest, location, name);
            assert(forall|i: int| 0 <= i < rest.len() ==> rest[i] == table[i + 1]);
            if lookup(rest, location, name) is None {
                assert forall|i: int| 0 <= i < table.len() implies !((#[trigger] table[i]).location
                    == location && table[i].name == name) by {
                    if i > 0 {
                        assert(rest[i - 1] == table[i]);
                    }
                }
            } else {
                let model = lookup(rest, location, name)->Some_0;
                let i = choose|i: int|
                    0 <= i < rest.len() && (#[trigger] rest[i]).model == model && rest[i].location
                        == location && rest[i].name == name;
                assert(table[i + 1] == rest[i]);
            }
        }
    }
}

/// The table supports every strategy that it gives. Such a table sends no
/// composite to a composite, and so none to itself.
pub open spec fn sound(table: TableView) -> bool {
    forall|i: int| 0 <= i < table.len() ==> (#[trigger] table[i]).model.supported(table)
}

/// The fault of the first line from `from` on whose strategy the table does
/// not support.
pub open spec fn table_fault(table: TableView, from: int) -> Option<ErrorView>
    decreases table.len() - from,
{
    if from < 0 || from >= table.len() {
        None
    } else if table[from].model.fault(table) is Some {
        table[from].model.fault(table)
    } else {
        table_fault(table, from + 1)
    }
}

/// A sound table supports the strategy that it gives for any name at any
/// location.
pub proof fn lemma_sound_table_supports(table: TableView, location: Seq<char>, name: Seq<char>)
    requires
        sound(table),
    ensures
        resolve(table, location, name).supported(table),
{
    lemma_lookup_is_a_line(table, location, name);
}

impl PricingTable {
    /// Holds every strategy of the table against the table: the table is
    /// sound, or the fault is that of the first line that it does not
    /// support.
    pub fn check(&self) -> (checked: Result<(), Error>)
        ensures
            checked is Ok <==> sound(self@),
            match checked {
                Ok(_) => table_fault(self@, 0) is None,
                Err(e) => table_fault(self@, 0) == Some(e@),
            },
    {
        let ghost table = self@;
        let mut i: usize = 0;
        while i < self.rules.len()
            invariant
                i <= self.rules@.len(),
                table == self@,
                forall|k: int| 0 <= k < i ==> (#[trigger] table[k]).model.supported(table),
                table_fault(table, 0) == table_fault(table, i as int),
            decreases self.rules@.len() - i,
        {
            proof {
                assert(table[i as int].model == self.rules@[i as int].model@);
                lemma_fault_is_not_supported(table[i as int].model, table);
            }
            match self.rules[i].model.check(self) {
                Ok(_) => {},
                Err(e) => {
                    return Err(e);
                },
            }
            i += 1;
        }
        Ok(())
    }

    /// The strategy that the table gives for `name` at `location`, if any.
    pub fn get(&self, location: &String, name: &String) -> (found: Option<&PricingModel>)
        ensures
            match found {
                Some(model) => lookup(self@, location@, name@) == Some(model@),
                None => lookup(self@, location@, name@) is None,
            },
    {
        let ghost table = self@;
        proof {
            assert(table.skip(0) =~= table);
        }
        let mut i: usize = 0;
        while i < self.rules.len()
            invariant
                i <= self.rules@.len(),
                table == self@,
                lookup(table, location@, name@) == lookup(table.skip(i as int), location@, name@),
            decreases self.rules@.len() - i,
        {
            proof {
                assert(table.skip(i as int)[0] == table[i as int]);
                assert(table.skip(i as int).skip(1) =~= table.skip(i + 1));
            }
            if self.rules[i].location == *location && self.rules[i].name == *name {
                return Some(&self.rules[i].model);
            }
            i += 1;
        }
        None
    }
}

} // verus!
