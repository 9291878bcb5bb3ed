//! Destinations: the lists and notes captures are filed into.
//!
//! A destination's id is the 128-bit value of its UUID. Routing and search
//! work over a snapshot of the destination rows read from storage; a row
//! with a `deleted_at` stamp is tombstoned and counts as absent.
use vstd::prelude::*;
use vstd::string::StringExecFns;
use vstd::relations::injective_on;
use vstd::set_lib::{lemma_int_range, lemma_len_subset, lemma_map_size, set_int_range};

verus! {

/// The id of the reserved, hidden Unsorted destination that unrouted
/// captures land in.
pub const UNSORTED_ID: u128 = 1;

/// The id of the seeded Random Thoughts destination: reachable by `@`, never
/// chosen by natural-language matching, whatever it has been renamed to.
pub const RANDOM_THOUGHTS_ID: u128 = 2;

/// Whether a destination holds checkable list items or append-only notes.
#[derive(Debug, Clone, Copy, PartialEq, Eq, Structural)]
pub enum DestinationKind {
    List,
    Note,
}

/// The stored name of a kind.
pub open spec fn kind_name(kind: DestinationKind) -> Seq<char> {
    match kind {
        DestinationKind::List => "list"@,
        DestinationKind::Note => "note"@,
    }
}

impl DestinationKind {
    /// The stored name of this kind: `list` or `note`.
    pub fn as_str(self) -> (s: &'static str)
        ensures
            s@ == kind_name(self),
    {
        match self {
            DestinationKind::List => "list",
            DestinationKind::Note => "note",
        }
    }

    /// The kind a stored name denotes. Storage admits only the two names.
    pub fn from_str(s: &str) -> (k: DestinationKind)
        requires
            s@ == "list"@ || s@ == "note"@,
        ensures
            kind_name(k) == s@,
    {
        let list = String::from_str("list");
        let given = String::from_str(s);
        if given == list {
            DestinationKind::List
        } else {
            DestinationKind::Note
        }
    }
}

/// One destination row.
#[derive(Debug, Clone, PartialEq, Eq)]
pub struct Destination {
    pub id: u128,
    pub parent_id: Option<u128>,
    pub name: String,
    pub trigger: String,
    pub kind: DestinationKind,
    pub is_system: bool,
    pub is_sensitive: bool,
    pub sort_order: i64,
    pub created_at: i64,
    pub deleted_at: Option<i64>,
}

/// Whether a row is live (not tombstoned).
pub open spec fn is_live(d: Destination) -> bool {
    d.deleted_at is None
}

impl Destination {
    /// A field-for-field copy.
    pub fn duplicate(&self) -> (d: Destination)
        ensures
            d == *self,
    {
        Destination {
            id: self.id,
            parent_id: self.parent_id,
            name: self.name.clone(),
            trigger: self.trigger.clone(),
            kind: self.kind,
            is_system: self.is_system,
            is_sensitive: self.is_sensitive,
            sort_order: self.sort_order,
            created_at: self.created_at,
            deleted_at: self.deleted_at,
        }
    }
}

/// The first live row of `rows` at or after `i` with id `id`.
pub open spec fn live_row_from(rows: Seq<Destination>, id: u128, i: nat) -> Option<Destination>
    decreases rows.len() - i,
{
    if i >= rows.len() {
        None
    } else if rows[i as int].id == id && is_live(rows[i as int]) {
        Some(rows[i as int])
    } else {
        live_row_from(rows, id, i + 1)
    }
}

/// The live row with id `id`, as reading it by id finds it.
pub open spec fn live_row(rows: Seq<Destination>, id: u128) -> Option<Destination> {
    live_row_from(rows, id, 0)
}

/// The chain of live rows from the root down to `id`, following at most
/// `steps` rows up the parent links. The walk stops at a row without a
/// parent, or at a parent that is missing or tombstoned.
pub open spec fn chain_to(rows: Seq<Destination>, id: u128, steps: nat) -> Seq<Destination>
    decreases steps,
{
    if steps == 0 {
        seq![]
    } else {
        match live_row(rows, id) {
            None => seq![],
            Some(d) => match d.parent_id {
                None => seq![d],
                Some(p) => chain_to(rows, p, (steps - 1) as nat).push(d),
            },
        }
    }
}

/// The index of the live row with id `id`.
fn find_live(rows: &Vec<Destination>, id: u128) -> (r: Option<usize>)
    ensures
        match r {
            Some(i) => i < rows@.len() && live_row(rows@, id) == Some(rows@[i as int]),
            None => live_row(rows@, id) is None,
        },
{
    let mut i: usize = 0;
    while i < rows.len()
        invariant
            i <= rows@.len(),
            live_row_from(rows@, id, i as nat) == live_row(rows@, id),
        decreases rows@.len() - i,
    {
        if rows[i].id == id && rows[i].deleted_at.is_none() {
            return Some(i);
        }
        i += 1;
    }
    None
}

/// The display path of destination `id` in a snapshot of the destination
/// rows: its live ancestors from the root down to itself, empty when `id`
/// is missing or tombstoned. The walk follows at most as many parent links
/// as there are rows, which every chain without a cycle fits in.
pub fn path(rows: &Vec<Destination>, id: u128) -> (chain: Vec<Destination>)
    ensures
        chain@ == chain_to(rows@, id, rows@.len()),
{
    let mut acc: Vec<Destination> = Vec::new();
    let mut cur: Option<u128> = Some(id);
    let mut left: usize = rows.len();
    while left > 0 && cur.is_some()
        invariant
            left <= rows@.len(),
            chain_to(rows@, id, rows@.len()) == (match cur {
                Some(c) => chain_to(rows@, c, left as nat),
                None => seq![],
            }) + acc@,
        decreases left,
    {
        let c = cur.unwrap();
        match find_live(rows, c) {
            None => {
                cur = None;
                left = 0;
                assert(chain_to(rows@, c, left as nat + 0) == chain_to(rows@, c, left as nat));
            },
            Some(i) => {
                let d = rows[i].duplicate();
                let ghost old_acc = acc@;
                let ghost gd = d;
                cur = d.parent_id;
                acc.insert(0, d);
                assert(acc@ =~= seq![gd] + old_acc);
                left -= 1;
                proof {
                    let d = gd;
                    match d.parent_id {
                        Some(p) => {
                            assert(chain_to(rows@, c, (left + 1) as nat) == chain_to(
                                rows@,
                                p,
                                left as nat,
                            ).push(d));
                            assert(chain_to(rows@, p, left as nat).push(d) + old_acc =~= chain_to(
                                rows@,
                                p,
                                left as nat,
                            ) + acc@);
                        },
                        None => {
                            assert(chain_to(rows@, c, (left + 1) as nat) == seq![d]);
                            assert(seq![d] + old_acc =~= Seq::<Destination>::empty() + acc@);
                        },
                    }
                }
            },
        }
    }
    proof {
        if cur is Some {
            assert(left == 0);
        }
        assert(Seq::<Destination>::empty() + acc@ =~= acc@);
    }
    acc
}

proof fn lemma_live_row_from(rows: Seq<Destination>, id: u128, i: nat)
    ensures
        live_row_from(rows, id, i) matches Some(d) ==> exists|k: int|
            0 <= k < rows.len() && rows[k] == d && d.id == id && is_live(d),
        live_row_from(rows, id, i) is None ==> forall|k: int|
            i <= k < rows.len() ==> !(rows[k].id == id && is_live(rows[k])),
    decreases rows.len() - i,
{
    if i < rows.len() && !(rows[i as int].id == id && is_live(rows[i as int])) {
        lemma_live_row_from(rows, id, i + 1);
    }
}

/// What reading a row by id finds: a live row of `rows` with that id, or
/// nothing when no live row has it.
pub proof fn lemma_live_row(rows: Seq<Destination>, id: u128)
    ensures
        live_row(rows, id) matches Some(d) ==> exists|k: int|
            0 <= k < rows.len() && rows[k] == d && d.id == id && is_live(d),
        live_row(rows, id) is None ==> forall|k: int|
            0 <= k < rows.len() ==> !(rows[k].id == id && is_live(rows[k])),
{
    lemma_live_row_from(rows, id, 0);
}

/// A path is a chain of live rows of the snapshot, root first, each the
/// parent of the next, ending at the destination asked for. It is empty
/// exactly when that destination is missing or tombstoned, and a path
/// shorter than the walk allowed begins at a row with no parent or whose
/// parent is missing or tombstoned.
pub proof fn lemma_path_is_an_ancestor_chain(rows: Seq<Destination>, id: u128, steps: nat)
    ensures
        ({
            let chain = chain_to(rows, id, steps);
            &&& chain.len() <= steps
            &&& steps > 0 ==> (chain.len() == 0 <==> live_row(rows, id) is None)
            &&& chain.len() > 0 ==> chain.last().id == id
            &&& forall|i: int| 0 <= i < chain.len() ==> rows.contains(#[trigger] chain[i])
                && is_live(chain[i])
            &&& forall|i: int|
                0 <= i < chain.len() - 1 ==> #[trigger] chain[i + 1].parent_id == Some(chain[i].id)
            &&& 0 < chain.len() < steps ==> (chain[0].parent_id matches Some(p) ==> live_row(
                rows,
                p,
            ) is None)
        }),
    decreases steps,
{
    let chain = chain_to(rows, id, steps);
    lemma_live_row(rows, id);
    if steps > 0 {
        match live_row(rows, id) {
            None => {},
            Some(d) => {
                let k = choose|k: int| 0 <= k < rows.len() && rows[k] == d && d.id == id && is_live(d);
                assert(rows[k] == d);
                match d.parent_id {
                    None => {
                        assert(chain == seq![d]);
                    },
                    Some(p) => {
                        lemma_path_is_an_ancestor_chain(rows, p, (steps - 1) as nat);
                        let up = chain_to(rows, p, (steps - 1) as nat);
                        assert(chain == up.push(d));
                        assert forall|i: int| 0 <= i < chain.len() implies rows.contains(
                            #[trigger] chain[i],
                        ) && is_live(chain[i]) by {
                            if i < up.len() {
                                assert(chain[i] == up[i]);
                            }
                        }
                        assert forall|i: int| 0 <= i < chain.len() - 1 implies #[trigger] chain[i
                            + 1].parent_id == Some(chain[i].id) by {
                            if i + 1 < up.len() {
                                assert(chain[i] == up[i] && chain[i + 1] == up[i + 1]);
                            } else {
                                assert(chain[i] == up[i]);
                                assert(up.last().id == p);
                            }
                        }
                        if up.len() > 0 {
                            assert(chain[0] == up[0]);
                        }
                    },
                }
            },
        }
    }
}

/// A path walked over as many parent links as there are rows is complete
/// whenever the ancestors do not loop: if no id occurs twice on it and the
/// first row's parent is not one of its rows, the first row has no parent
/// or its parent is missing or tombstoned.
pub proof fn lemma_path_is_complete_without_a_cycle(rows: Seq<Destination>, id: u128)
    requires
        ({
            let chain = chain_to(rows, id, rows.len());
            &&& forall|i: int, j: int|
                0 <= i < j < chain.len() ==> #[trigger] chain[i].id != #[trigger] chain[j].id
            &&& chain.len() > 0 && chain[0].parent_id is Some ==> forall|j: int|
                0 <= j < chain.len() ==> Some(#[trigger] chain[j].id) != chain[0].parent_id
        }),
    ensures
        ({
            let chain = chain_to(rows, id, rows.len());
            chain.len() > 0 ==> (chain[0].parent_id matches Some(p) ==> live_row(rows, p) is None)
        }),
{
    let n = rows.len();
    let chain = chain_to(rows, id, n);
    lemma_path_is_an_ancestor_chain(rows, id, n);
    if chain.len() > 0 && chain[0].parent_id is Some {
        let p = chain[0].parent_id->0;
        if live_row(rows, p) is Some && chain.len() == n {
            lemma_live_row(rows, p);
            let d = live_row(rows, p)->0;
            let kd = choose|k: int| 0 <= k < rows.len() && rows[k] == d && d.id == p && is_live(d);
            let f = |i: int| choose|k: int| 0 <= k < rows.len() && rows[k] == chain[i];
            let x = set_int_range(0, n as int);
            let y = x.map(f);
            lemma_int_range(0, n as int);
            assert forall|i: int| x.contains(i) implies 0 <= #[trigger] f(i) < n && rows[f(i)]
                == chain[i] by {
                assert(rows.contains(chain[i]));
            }
            assert(injective_on(f, x)) by {
                assert forall|a: int, b: int|
                    x.contains(a) && x.contains(b) && #[trigger] f(a) == #[trigger] f(b) implies a
                    == b by {
                    assert(chain[a] == rows[f(a)] && chain[b] == rows[f(b)]);
                    if a < b {
                        assert(chain[a].id != chain[b].id);
                    } else if b < a {
                        assert(chain[b].id != chain[a].id);
                    }
                }
            }
            lemma_map_size(x, y, f);
            if !y.contains(kd) {
                assert(y.subset_of(x.remove(kd))) by {
                    assert forall|k: int| y.contains(k) implies x.remove(kd).contains(k) by {
                        let i = choose|i: int| x.contains(i) && k == f(i);
                        assert(0 <= f(i) < n);
                    }
                }
                lemma_len_subset(y, x.remove(kd));
                assert(false);
            }
            let j = choose|j: int| x.contains(j) && kd == f(j);
            assert(rows[f(j)] == chain[j]);
            assert(chain[j].id == p);
            assert(Some(chain[j].id) == chain[0].parent_id);
        }
    }
}

} // verus!
