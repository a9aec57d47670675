//! The membership map: for each symbol, the comma-joined names of the
//! features and extensions that require it, in the order they were recorded.
use vstd::prelude::*;
use crate::table::Table;
use crate::text::{chars_of, extend_str, string_of};

verus! {

/// The owners recorded for a symbol after one more owner is added.
pub open spec fn add_parent(m: Map<Seq<char>, Seq<char>>, item: Seq<char>, parent: Seq<char>) -> Map<
    Seq<char>,
    Seq<char>,
> {
    if m.contains_key(item) {
        m.insert(item, m[item] + ", "@ + parent)
    } else {
        m.insert(item, parent)
    }
}

/// Symbol name to the joined list of its owners.
pub struct Membership {
    owners: Table<String>,
}

impl Membership {
    /// The underlying table is well formed.
    pub closed spec fn wf(&self) -> bool {
        self.owners.wf()
    }

    /// Symbol name to its joined owners.
    pub closed spec fn view(&self) -> Map<Seq<char>, Seq<char>> {
        self.owners@.map_values(|s: String| s@)
    }

    /// An empty map.
    pub fn new() -> (r: Membership)
        ensures
            r.wf(),
            r@ == Map::<Seq<char>, Seq<char>>::empty(),
    {
        let r = Membership { owners: Table::new() };
        assert(r@ =~= Map::<Seq<char>, Seq<char>>::empty());
        r
    }

    /// The joined owners of `item`, if any were recorded.
    pub fn get(&self, item: &str) -> (r: Option<&String>)
        requires
            self.wf(),
        ensures
            r matches Some(s) ==> self@.contains_key(item@) && self@[item@] == s@,
            r is None ==> !self@.contains_key(item@),
    {
        let c = chars_of(item);
        self.owners.get(c.as_slice())
    }
}

/// Records `parent` as a further owner of `item`: appended after the owners
/// already recorded, separated by a comma and a space.
pub fn add_item_parent(parents: &mut Membership, item: &str, parent: &str)
    requires
        old(parents).wf(),
    ensures
        final(parents).wf(),
        final(parents)@ == add_parent(old(parents)@, item@, parent@),
{
    let c = chars_of(item);
    let ghost m0 = parents@;
    let mut v = match parents.get(item) {
        Some(existing) => {
            let mut v = chars_of(existing.as_str());
            extend_str(&mut v, ", ");
            v
        },
        None => Vec::new(),
    };
    extend_str(&mut v, parent);
    let value = string_of(v.as_slice());
    parents.owners.insert(string_of(c.as_slice()), value);
    proof {
        if !m0.contains_key(item@) {
            assert(v@ =~= parent@);
        }
        assert(parents@ =~= add_parent(m0, item@, parent@));
    }
}

/// Owners accumulate in the order they are added: a symbol recorded first
/// under `a` and then under `b` has the owners `a, b`.
pub proof fn lemma_owners_in_order(
    m: Map<Seq<char>, Seq<char>>,
    item: Seq<char>,
    a: Seq<char>,
    b: Seq<char>,
)
    requires
        !m.contains_key(item),
    ensures
        add_parent(add_parent(m, item, a), item, b)[item] == a + ", "@ + b,
{
}

} // verus!
