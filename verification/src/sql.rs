use nonempty::NonEmpty;
use vstd::prelude::*;

use crate::text::push_str;

verus! {

#[verifier::external_type_specification]
#[verifier::external_body]
#[verifier::reject_recursive_types(T)]
pub struct ExNonEmpty<T>(NonEmpty<T>);

/// The strings that a non-empty list holds, head first.
pub uninterp spec fn nonempty_items(ne: NonEmpty<String>) -> Seq<Seq<char>>;

/// Trusted: `NonEmpty::new` makes the list holding just `s`.
#[verifier::external_body]
fn nonempty_new(s: String) -> (r: NonEmpty<String>)
    ensures
        nonempty_items(r) == seq![s@],
{
    NonEmpty::new(s)
}

/// Trusted: `NonEmpty::push` appends `s` at the end (it pushes onto the tail).
#[verifier::external_body]
fn nonempty_push(ne: &mut NonEmpty<String>, s: String)
    ensures
        nonempty_items(*final(ne)) == nonempty_items(*old(ne)).push(s@),
{
    ne.push(s)
}

/// Trusted: `Vec::from(NonEmpty)` lists the head, then the tail, in order.
#[verifier::external_body]
fn nonempty_into_vec(ne: NonEmpty<String>) -> (v: Vec<String>)
    ensures
        v.deep_view() == nonempty_items(ne),
{
    ne.into()
}

pub type Selection = String;

pub type Table = String;

pub type Predicate = String;

/// A complete `SELECT ... FROM ... [WHERE ...]` query.
pub struct Query {
    selections: Vec<Selection>,
    tables: Vec<Table>,
    where_clauses: Vec<Predicate>,
}

/// A query under construction; the type parameters record which parts are
/// already present.
pub struct QueryBuilder<S, T, W> {
    selections: S,
    tables: T,
    where_clauses: W,
}

pub type EmptyQuery = QueryBuilder<Vec<Selection>, Vec<Table>, Vec<Predicate>>;

pub type PartialQuery = QueryBuilder<NonEmpty<Selection>, Vec<Table>, Vec<Predicate>>;

pub type PartialQuery2 = QueryBuilder<NonEmpty<Selection>, NonEmpty<Table>, Vec<Predicate>>;

pub type CompleteQuery = QueryBuilder<NonEmpty<Selection>, NonEmpty<Table>, NonEmpty<Predicate>>;

/// `items` separated by `sep`.
pub open spec fn join(items: Seq<Seq<char>>, sep: Seq<char>) -> Seq<char>
    decreases items.len(),
{
    if items.len() == 0 {
        Seq::empty()
    } else if items.len() == 1 {
        items[0]
    } else {
        join(items.drop_last(), sep) + sep + items.last()
    }
}

/// Each predicate on a line of its own, after `WHERE `.
pub open spec fn where_lines(ps: Seq<Seq<char>>) -> Seq<char>
    decreases ps.len(),
{
    if ps.len() == 0 {
        Seq::empty()
    } else {
        where_lines(ps.drop_last()) + "\nWHERE "@ + ps.last()
    }
}

/// The SQL text of a query.
pub open spec fn render_query(sel: Seq<Seq<char>>, tables: Seq<Seq<char>>, preds: Seq<Seq<char>>) -> Seq<
    char,
> {
    "SELECT "@ + join(sel, ", "@) + "\nFROM "@ + join(tables, " "@) + where_lines(preds)
}

impl Query {
    pub closed spec fn selections(self) -> Seq<Seq<char>> {
        self.selections.deep_view()
    }

    pub closed spec fn tables(self) -> Seq<Seq<char>> {
        self.tables.deep_view()
    }

    pub closed spec fn where_clauses(self) -> Seq<Seq<char>> {
        self.where_clauses.deep_view()
    }

    pub fn builder() -> (b: EmptyQuery)
        ensures
            b.selections() == Seq::<Seq<char>>::empty(),
            b.tables() == Seq::<Seq<char>>::empty(),
            b.where_clauses() == Seq::<Seq<char>>::empty(),
    {
        EmptyQuery::new()
    }
}

impl EmptyQuery {
    pub closed spec fn selections(self) -> Seq<Seq<char>> {
        self.selections.deep_view()
    }

    pub closed spec fn tables(self) -> Seq<Seq<char>> {
        self.tables.deep_view()
    }

    pub closed spec fn where_clauses(self) -> Seq<Seq<char>> {
        self.where_clauses.deep_view()
    }

    pub fn new() -> (b: Self)
        ensures
            b.selections() == Seq::<Seq<char>>::empty(),
            b.tables() == Seq::<Seq<char>>::empty(),
            b.where_clauses() == Seq::<Seq<char>>::empty(),
    {
        let b = Self { selections: Vec::new(), tables: Vec::new(), where_clauses: Vec::new() };
        proof {
            assert(b.selections() =~= Seq::<Seq<char>>::empty());
            assert(b.tables() =~= Seq::<Seq<char>>::empty());
            assert(b.where_clauses() =~= Seq::<Seq<char>>::empty());
        }
        b
    }

    /// Starts the selection list with `selection`; the tables and predicates
    /// gathered so far are kept.
    pub fn select(self, selection: &str) -> (b: PartialQuery)
        ensures
            b.selections() == seq![selection@],
            b.tables() == self.tables(),
            b.where_clauses() == self.where_clauses(),
    {
        PartialQuery {
            selections: nonempty_new(String::from_str(selection)),
            tables: self.tables,
            where_clauses: self.where_clauses,
        }
    }
}

impl PartialQuery {
    pub closed spec fn selections(self) -> Seq<Seq<char>> {
        nonempty_items(self.selections)
    }

    pub closed spec fn tables(self) -> Seq<Seq<char>> {
        self.tables.deep_view()
    }

    pub closed spec fn where_clauses(self) -> Seq<Seq<char>> {
        self.where_clauses.deep_view()
    }

    /// Adds `selection` after the ones already selected.
    pub fn select(self, selection: &str) -> (b: PartialQuery)
        ensures
            b.selections() == self.selections().push(selection@),
            b.tables() == self.tables(),
            b.where_clauses() == self.where_clauses(),
    {
        let mut b = self;
        nonempty_push(&mut b.selections, String::from_str(selection));
        b
    }

    /// Starts the table list with `table`.
    pub fn from(self, table: &str) -> (b: PartialQuery2)
        ensures
            b.selections() == self.selections(),
            b.tables() == seq![table@],
            b.where_clauses() == self.where_clauses(),
    {
        PartialQuery2 {
            selections: self.selections,
            tables: nonempty_new(String::from_str(table)),
            where_clauses: self.where_clauses,
        }
    }
}

impl PartialQuery2 {
    pub closed spec fn selections(self) -> Seq<Seq<char>> {
        nonempty_items(self.selections)
    }

    pub closed spec fn tables(self) -> Seq<Seq<char>> {
        nonempty_items(self.tables)
    }

    pub closed spec fn where_clauses(self) -> Seq<Seq<char>> {
        self.where_clauses.deep_view()
    }

    /// Adds `table` after the tables already named.
    pub fn from(self, table: &str) -> (b: PartialQuery2)
        ensures
            b.selections() == self.selections(),
            b.tables() == self.tables().push(table@),
            b.where_clauses() == self.where_clauses(),
    {
        let mut b = self;
        nonempty_push(&mut b.tables, String::from_str(table));
        b
    }

    /// Starts the predicate list with `predicate`.
    pub fn where_(self, predicate: &str) -> (b: CompleteQuery)
        ensures
            b.selections() == self.selections(),
            b.tables() == self.tables(),
            b.where_clauses() == seq![predicate@],
    {
        CompleteQuery {
            selections: self.selections,
            tables: self.tables,
            where_clauses: nonempty_new(String::from_str(predicate)),
        }
    }

    pub fn build(self) -> (q: Query)
        ensures
            q.selections() == self.selections(),
            q.tables() == self.tables(),
            q.where_clauses() == self.where_clauses(),
    {
        Query {
            selections: nonempty_into_vec(self.selections),
            tables: nonempty_into_vec(self.tables),
            where_clauses: self.where_clauses,
        }
    }
}

impl CompleteQuery {
    pub closed spec fn selections(self) -> Seq<Seq<char>> {
        nonempty_items(self.selections)
    }

    pub closed spec fn tables(self) -> Seq<Seq<char>> {
        nonempty_items(self.tables)
    }

    pub closed spec fn where_clauses(self) -> Seq<Seq<char>> {
        nonempty_items(self.where_clauses)
    }

    /// Adds `predicate` after the predicates already given.
    pub fn where_(self, predicate: &str) -> (b: CompleteQuery)
        ensures
            b.selections() == self.selections(),
            b.tables() == self.tables(),
            b.where_clauses() == self.where_clauses().push(predicate@),
    {
        let mut b = self;
        nonempty_push(&mut b.where_clauses, String::from_str(predicate));
        b
    }

    pub fn build(self) -> (q: Query)
        ensures
            q.selections() == self.selections(),
            q.tables() == self.tables(),
            q.where_clauses() == self.where_clauses(),
    {
        Query {
            selections: nonempty_into_vec(self.selections),
            tables: nonempty_into_vec(self.tables),
            where_clauses: nonempty_into_vec(self.where_clauses),
        }
    }
}


/// Pushing `added` one item at a time, through the states `states`, leaves
/// the first state followed by `added`.
proof fn lemma_pushes_in_order(states: Seq<Seq<Seq<char>>>, added: Seq<Seq<char>>)
    requires
        states.len() == added.len() + 1,
        forall|i: int| 0 <= i < added.len() ==> #[trigger] states[i + 1] == states[i].push(added[i]),
    ensures
        states.last() == states[0] + added,
    decreases added.len(),
{
    if added.len() == 0 {
        assert(states[0] + added =~= states[0]);
    } else {
        let n = added.len() - 1;
        lemma_pushes_in_order(states.take(n + 1), added.take(n));
        assert(states.take(n + 1).last() == states[n]);
        assert(states[n + 1] == states[n].push(added[n]));
        assert(states[0] + added =~= (states[0] + added.take(n)).push(added[n]));
    }
}

/// Selecting `added`, one after the other, keeps every selection in call
/// order: after the calls, the selections are those before followed by
/// `added`, and the tables and predicates are unchanged.
pub proof fn lemma_selects_in_call_order(builders: Seq<PartialQuery>, added: Seq<Seq<char>>)
    requires
        builders.len() == added.len() + 1,
        forall|i: int|
            0 <= i < added.len() ==> (#[trigger] builders[i + 1]).selections() == builders[i].selections().push(
                added[i],
            ) && builders[i + 1].tables() == builders[i].tables() && builders[i + 1].where_clauses()
                == builders[i].where_clauses(),
    ensures
        builders.last().selections() == builders[0].selections() + added,
        builders.last().tables() == builders[0].tables(),
        builders.last().where_clauses() == builders[0].where_clauses(),
    decreases added.len(),
{
    let states = Seq::new(builders.len(), |i: int| builders[i].selections());
    assert forall|i: int| 0 <= i < added.len() implies #[trigger] states[i + 1] == states[i].push(added[i]) by {
        assert(builders[i + 1].selections() == builders[i].selections().push(added[i]));
    }
    lemma_pushes_in_order(states, added);
    if added.len() > 0 {
        let n = added.len() - 1;
        lemma_selects_in_call_order(builders.take(n + 1), added.take(n));
        assert(builders.take(n + 1).last() == builders[n]);
        assert(builders[n + 1].tables() == builders[n].tables());
    }
}

/// Naming the tables `added`, one after the other, keeps every table in
/// call order; selections and predicates are unchanged.
pub proof fn lemma_froms_in_call_order(builders: Seq<PartialQuery2>, added: Seq<Seq<char>>)
    requires
        builders.len() == added.len() + 1,
        forall|i: int|
            0 <= i < added.len() ==> (#[trigger] builders[i + 1]).tables() == builders[i].tables().push(added[i])
                && builders[i + 1].selections() == builders[i].selections() && builders[i + 1].where_clauses()
                == builders[i].where_clauses(),
    ensures
        builders.last().tables() == builders[0].tables() + added,
        builders.last().selections() == builders[0].selections(),
        builders.last().where_clauses() == builders[0].where_clauses(),
    decreases added.len(),
{
    let states = Seq::new(builders.len(), |i: int| builders[i].tables());
    assert forall|i: int| 0 <= i < added.len() implies #[trigger] states[i + 1] == states[i].push(added[i]) by {
        assert(builders[i + 1].tables() == builders[i].tables().push(added[i]));
    }
    lemma_pushes_in_order(states, added);
    if added.len() > 0 {
        let n = added.len() - 1;
        lemma_froms_in_call_order(builders.take(n + 1), added.take(n));
        assert(builders.take(n + 1).last() == builders[n]);
        assert(builders[n + 1].selections() == builders[n].selections());
    }
}

/// Adding the predicates `added`, one after the other, keeps every
/// predicate in call order; selections and tables are unchanged.
pub proof fn lemma_wheres_in_call_order(builders: Seq<CompleteQuery>, added: Seq<Seq<char>>)
    requires
        builders.len() == added.len() + 1,
        forall|i: int|
            0 <= i < added.len() ==> (#[trigger] builders[i + 1]).where_clauses() == builders[i].where_clauses().push(
                added[i],
            ) && builders[i + 1].selections() == builders[i].selections() && builders[i + 1].tables()
                == builders[i].tables(),
    ensures
        builders.last().where_clauses() == builders[0].where_clauses() + added,
        builders.last().selections() == builders[0].selections(),
        builders.last().tables() == builders[0].tables(),
    decreases added.len(),
{
    let states = Seq::new(builders.len(), |i: int| builders[i].where_clauses());
    assert forall|i: int| 0 <= i < added.len() implies #[trigger] states[i + 1] == states[i].push(added[i]) by {
        assert(builders[i + 1].where_clauses() == builders[i].where_clauses().push(added[i]));
    }
    lemma_pushes_in_order(states, added);
    if added.len() > 0 {
        let n = added.len() - 1;
        lemma_wheres_in_call_order(builders.take(n + 1), added.take(n));
        assert(builders.take(n + 1).last() == builders[n]);
        assert(builders[n + 1].selections() == builders[n].selections());
    }
}

/// Appends `items` separated by `sep`.
fn push_joined(out: &mut String, items: &Vec<String>, sep: &str)
    ensures
        final(out)@ == old(out)@ + join(items.deep_view(), sep@),
{
    let ghost start = out@;
    let ghost all = items.deep_view();
    let n = items.len();
    for i in 0..n
        invariant
            n == items@.len(),
            all == items.deep_view(),
            out@ == start + join(all.take(i as int), sep@),
    {
        proof {
            assert(all.take(i + 1).drop_last() =~= all.take(i as int));
            if i == 0 {
                assert(all.take(0) =~= Seq::<Seq<char>>::empty());
            }
        }
        if i > 0 {
            push_str(out, sep);
        }
        push_str(out, items[i].as_str());
        proof {
            assert(out@ =~= start + join(all.take(i + 1), sep@));
        }
    }
    proof {
        assert(all.take(n as int) =~= all);
    }
}

impl Query {
    /// The query's SQL text: `SELECT` with the selections separated by `, `,
    /// then `FROM` on a new line with the tables separated by spaces, then
    /// one `WHERE` line per predicate.
    pub fn to_string(&self) -> (s: String)
        ensures
            s@ == render_query(self.selections(), self.tables(), self.where_clauses()),
    {
        let mut s = String::new();
        push_str(&mut s, "SELECT ");
        push_joined(&mut s, &self.selections, ", ");
        push_str(&mut s, "\nFROM ");
        push_joined(&mut s, &self.tables, " ");
        let ghost mid = s@;
        let ghost ps = self.where_clauses.deep_view();
        let n = self.where_clauses.len();
        for i in 0..n
            invariant
                n == self.where_clauses@.len(),
                ps == self.where_clauses.deep_view(),
                s@ == mid + where_lines(ps.take(i as int)),
        {
            proof {
                assert(ps.take(i + 1).drop_last() =~= ps.take(i as int));
                if i == 0 {
                    assert(ps.take(0) =~= Seq::<Seq<char>>::empty());
                }
            }
            push_str(&mut s, "\nWHERE ");
            push_str(&mut s, self.where_clauses[i].as_str());
            proof {
                assert(s@ =~= mid + where_lines(ps.take(i + 1)));
            }
        }
        proof {
            assert(ps.take(n as int) =~= ps);
            assert(s@ =~= render_query(self.selections(), self.tables(), self.where_clauses()));
        }
        s
    }
}

} // verus!
