//! Rows as named values.
use crate::error::{ErrorView, LiteError};
use crate::native;
use crate::text;
use crate::wire;
use vstd::prelude::*;

verus! {

/// A row of named values, each name once.
#[derive(Debug)]
pub struct Record {
    fields: Vec<(String, nodedb_types::Value)>,
}

impl View for Record {
    type V = Map<Seq<char>, nodedb_types::Value>;

    closed spec fn view(&self) -> Map<Seq<char>, nodedb_types::Value> {
        wire::fields_map(self.fields@)
    }
}

/// What rows are.
pub open spec fn records_view(rows: Seq<Record>) -> Seq<Map<Seq<char>, nodedb_types::Value>> {
    rows.map_values(|r: Record| r@)
}

/// A row with every name qualified by an alias. An empty alias changes nothing.
pub open spec fn qualified_by(
    row: Map<Seq<char>, nodedb_types::Value>,
    alias: Seq<char>,
) -> Map<Seq<char>, nodedb_types::Value> {
    if alias.len() == 0 {
        row
    } else {
        Map::new(
            |name: Seq<char>|
                text::has_prefix(name, alias + "."@) && row.dom().contains(
                    name.skip(alias.len() as int + 1),
                ),
            |name: Seq<char>| row[name.skip(alias.len() as int + 1)],
        )
    }
}

impl Record {
    #[verifier::type_invariant]
    spec fn wf(self) -> bool {
        wire::distinct_names(self.fields@)
    }

    /// A row without values.
    pub fn new() -> (r: Record)
        ensures
            r@ == Map::<Seq<char>, nodedb_types::Value>::empty(),
    {
        let fields: Vec<(String, nodedb_types::Value)> = Vec::new();
        proof {
            assert(wire::fields_map(fields@) =~= Map::<
                Seq<char>,
                nodedb_types::Value,
            >::empty());
        }
        Record { fields }
    }

    /// Sets the value of a name.
    pub fn set(&mut self, name: &str, value: nodedb_types::Value)
        ensures
            final(self)@ == old(self)@.insert(name@, value),
    {
        proof {
            use_type_invariant(&*self);
        }
        let mut fields: Vec<(String, nodedb_types::Value)> = Vec::new();
        std::mem::swap(&mut fields, &mut self.fields);
        wire::set_field(&mut fields, name, value);
        self.fields = fields;
    }

    /// The value of a name, null where there is none.
    pub fn get_or_null(&self, name: &str) -> (r: nodedb_types::Value)
        ensures
            r == native::field_or_null(self@, name@),
    {
        proof {
            use_type_invariant(&*self);
        }
        native::field_or_null_of(&self.fields, name)
    }

    /// How many names the row has.
    pub fn len(&self) -> (r: usize)
        ensures
            r == self@.len(),
            self@.dom().finite(),
    {
        proof {
            use_type_invariant(&*self);
            lemma_count(self.fields@);
        }
        self.fields.len()
    }

    /// The same row.
    pub fn copy(&self) -> (r: Record)
        ensures
            r@ == self@,
    {
        proof {
            use_type_invariant(&*self);
        }
        let mut out = Record::new();
        out.extend(self);
        proof {
            assert(Map::<Seq<char>, nodedb_types::Value>::empty().union_prefer_right(self@)
                =~= self@);
        }
        out
    }

    /// Adds the values of another row, which win over those of this one.
    pub fn extend(&mut self, other: &Record)
        ensures
            final(self)@ == old(self)@.union_prefer_right(other@),
    {
        proof {
            use_type_invariant(other);
        }
        let ghost start = self@;
        let ghost added = other.fields@;
        let mut i: usize = 0;
        proof {
            assert(start.union_prefer_right(wire::fields_map(added.take(0))) =~= start);
        }
        while i < other.fields.len()
            invariant
                i <= other.fields@.len(),
                added == other.fields@,
                wire::distinct_names(added),
                self@ == start.union_prefer_right(wire::fields_map(added.take(i as int))),
            decreases other.fields@.len() - i,
        {
            self.set(other.fields[i].0.as_str(), native::copy_native(&other.fields[i].1));
            proof {
                lemma_next(added, i as int);
                assert(start.union_prefer_right(
                    wire::fields_map(added.take(i as int)).insert(
                        added[i as int].0@,
                        added[i as int].1,
                    ),
                ) =~= start.union_prefer_right(wire::fields_map(added.take(i as int))).insert(
                    added[i as int].0@,
                    added[i as int].1,
                ));
            }
            i = i + 1;
        }
        proof {
            assert(added.take(i as int) =~= added);
        }
    }

    /// The row with every name qualified by an alias.
    pub fn prefixed(&self, alias: &str) -> (r: Record)
        ensures
            r@ == qualified_by(self@, alias@),
    {
        proof {
            use_type_invariant(&*self);
        }
        if alias.unicode_len() == 0 {
            return self.copy();
        }
        let prefix = text::concat2(alias, ".");
        let ghost added = self.fields@;
        let mut out = Record::new();
        let mut i: usize = 0;
        proof {
            reveal_strlit(".");
            assert(out@ =~= qualified_by(wire::fields_map(added.take(0)), alias@));
        }
        while i < self.fields.len()
            invariant
                i <= self.fields@.len(),
                added == self.fields@,
                alias@.len() > 0,
                "."@.len() == 1,
                prefix@ == alias@ + "."@,
                wire::distinct_names(added),
                out@ == qualified_by(wire::fields_map(added.take(i as int)), alias@),
            decreases self.fields@.len() - i,
        {
            let name = text::concat2(prefix.as_str(), self.fields[i].0.as_str());
            out.set(name.as_str(), native::copy_native(&self.fields[i].1));
            proof {
                lemma_next(added, i as int);
                lemma_qualified_insert(
                    wire::fields_map(added.take(i as int)),
                    alias@,
                    added[i as int].0@,
                    added[i as int].1,
                );
            }
            i = i + 1;
        }
        proof {
            assert(added.take(i as int) =~= added);
        }
        out
    }

    /// The row as a document.
    pub fn to_object(&self) -> (r: nodedb_types::Value)
        ensures
            r == native::native_object(self@),
    {
        native::native_record(self.to_fields())
    }

    /// The names and values of the row, in no particular order.
    pub fn to_fields(&self) -> (r: Vec<(String, nodedb_types::Value)>)
        ensures
            wire::distinct_names(r@),
            wire::fields_map(r@) == self@,
    {
        let copied = self.copy();
        proof {
            use_type_invariant(&copied);
        }
        copied.fields
    }
}

/// What rows or an error say.
pub open spec fn outcome_view(r: Result<Vec<Record>, LiteError>) -> Result<
    Seq<Map<Seq<char>, nodedb_types::Value>>,
    ErrorView,
> {
    match r {
        Ok(rows) => Ok(records_view(rows@)),
        Err(e) => Err(e@),
    }
}

/// One more entry adds its name and value to the map.
proof fn lemma_next(fields: Seq<(String, nodedb_types::Value)>, i: int)
    requires
        wire::distinct_names(fields),
        0 <= i < fields.len(),
    ensures
        wire::fields_map(fields.take(i + 1)) == wire::fields_map(fields.take(i)).insert(
            fields[i].0@,
            fields[i].1,
        ),
{
    let before = fields.take(i);
    let after = fields.take(i + 1);
    assert forall|a: int, b: int| 0 <= a < b < before.len() implies (#[trigger] before[a]).0@ != (
    #[trigger] before[b]).0@ by {
        assert(fields[a].0@ != fields[b].0@);
    }
    assert forall|j: int| 0 <= j < before.len() implies (#[trigger] before[j]).0@
        != fields[i].0@ by {
        assert(fields[j].0@ != fields[i].0@);
    }
    assert forall|j: int| 0 <= j < before.len() implies (#[trigger] after[j]) == before[j] by {}
    wire::lemma_fields_push(before, after, fields[i].0@, fields[i].1);
}

proof fn lemma_count(fields: Seq<(String, nodedb_types::Value)>)
    requires
        wire::distinct_names(fields),
    ensures
        wire::fields_map(fields).dom().finite(),
        wire::fields_map(fields).len() == fields.len(),
    decreases fields.len(),
{
    if fields.len() == 0 {
        assert(wire::fields_map(fields).dom() =~= Set::<Seq<char>>::empty());
    } else {
        let n = fields.len() - 1;
        let before = fields.take(n);
        assert forall|a: int, b: int| 0 <= a < b < before.len() implies (#[trigger] before[a]).0@
            != (#[trigger] before[b]).0@ by {
            assert(fields[a].0@ != fields[b].0@);
        }
        lemma_count(before);
        lemma_next(fields, n);
        assert(fields.take(n + 1) =~= fields);
        assert(!wire::has_field(before, fields[n].0@)) by {
            if wire::has_field(before, fields[n].0@) {
                let k = choose|k: int|
                    0 <= k < before.len() && (#[trigger] before[k]).0@ == fields[n].0@;
                assert(fields[k].0@ != fields[n].0@);
            }
        }
    }
}

proof fn lemma_qualified_insert(
    row: Map<Seq<char>, nodedb_types::Value>,
    alias: Seq<char>,
    name: Seq<char>,
    value: nodedb_types::Value,
)
    requires
        alias.len() > 0,
        "."@.len() == 1,
    ensures
        qualified_by(row.insert(name, value), alias) == qualified_by(row, alias).insert(
            alias + "."@ + name,
            value,
        ),
{
    let left = qualified_by(row.insert(name, value), alias);
    let right = qualified_by(row, alias).insert(alias + "."@ + name, value);
    let whole = alias + "."@ + name;
    assert(whole.take((alias + "."@).len() as int) =~= alias + "."@);
    assert(whole.skip(alias.len() as int + 1) =~= name);
    assert forall|n: Seq<char>| #[trigger]
        left.dom().contains(n) == right.dom().contains(n) by {
        if text::has_prefix(n, alias + "."@) && n.skip(alias.len() as int + 1) == name {
            assert(n =~= n.take((alias + "."@).len() as int) + n.skip(alias.len() as int + 1));
        }
    }
    assert forall|n: Seq<char>| left.dom().contains(n) implies #[trigger] left[n] == right[n] by {
        if n.skip(alias.len() as int + 1) == name {
            assert(n =~= n.take((alias + "."@).len() as int) + n.skip(alias.len() as int + 1));
            assert(n =~= whole);
        }
    }
    assert(left =~= right);
}

} // verus!
