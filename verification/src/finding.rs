//! A finding: the grouped result of one classifier. It maps each grouping
//! key (an address) to the ordered list of outputs that triggered it,
//! preserving both the order in which keys were first encountered and the
//! order in which outputs were appended.

use vstd::prelude::*;

use crate::address::Address;
use crate::address::AddressModel;
use crate::outputs::Output;
use crate::outputs::OutputModel;

verus! {

/// One group of a finding: a key and the outputs appended under it, in
/// encounter order.
pub struct Group {
    pub key: Address,
    pub outputs: Vec<Output>,
}

impl DeepView for Group {
    type V = (AddressModel, Seq<OutputModel>);

    open spec fn deep_view(&self) -> (AddressModel, Seq<OutputModel>) {
        (self.key@, self.outputs.deep_view())
    }
}

/// The grouped output of one classifier.
pub struct Finding {
    pub groups: Vec<Group>,
}

impl View for Finding {
    type V = Seq<(AddressModel, Seq<OutputModel>)>;

    open spec fn view(&self) -> Seq<(AddressModel, Seq<OutputModel>)> {
        self.groups.deep_view()
    }
}

/// Append `o` under key `k`: if a group with key `k` exists, push `o` at
/// the end of its output list; otherwise open a new group at the end.
pub open spec fn spec_add_group(
    g: Seq<(AddressModel, Seq<OutputModel>)>,
    k: AddressModel,
    o: OutputModel,
) -> Seq<(AddressModel, Seq<OutputModel>)>
    decreases g.len(),
{
    if g.len() == 0 {
        seq![(k, seq![o])]
    } else if g[0].0 == k {
        seq![(g[0].0, g[0].1.push(o))] + g.subrange(1, g.len() as int)
    } else {
        seq![g[0]] + spec_add_group(g.subrange(1, g.len() as int), k, o)
    }
}

/// Whether output `o` appears in some group of `g`.
pub open spec fn finding_contains(g: Seq<(AddressModel, Seq<OutputModel>)>, o: OutputModel) -> bool {
    exists|i: int| 0 <= i < g.len() && #[trigger] g[i].1.contains(o)
}

/// How many outputs `g` holds in all of its groups together.
pub open spec fn spec_total_outputs(g: Seq<(AddressModel, Seq<OutputModel>)>) -> nat
    decreases g.len(),
{
    if g.len() == 0 {
        0
    } else {
        spec_total_outputs(g.drop_last()) + g.last().1.len()
    }
}

/// Whether a finding's keys are pairwise distinct: the grouping is then a
/// mapping from keys to output lists.
pub open spec fn distinct_keys(g: Seq<(AddressModel, Seq<OutputModel>)>) -> bool {
    forall|i: int, j: int| 0 <= i < j < g.len() ==> g[i].0 != g[j].0
}

/// Every key of the extended finding is a key the finding already had, or
/// the key just appended under.
proof fn lemma_add_group_keys(
    g: Seq<(AddressModel, Seq<OutputModel>)>,
    k: AddressModel,
    o: OutputModel,
)
    ensures
        forall|j: int|
            0 <= j < spec_add_group(g, k, o).len() ==> #[trigger] spec_add_group(g, k, o)[j].0 == k
                || exists|i: int| 0 <= i < g.len() && g[i].0 == spec_add_group(g, k, o)[j].0,
    decreases g.len(),
{
    let r = spec_add_group(g, k, o);
    if g.len() == 0 {
    } else if g[0].0 == k {
        assert forall|j: int| 0 <= j < r.len() implies #[trigger] r[j].0 == k || exists|i: int|
            0 <= i < g.len() && g[i].0 == r[j].0 by {
            assert(g[j].0 == r[j].0);
        }
    } else {
        let tail = g.subrange(1, g.len() as int);
        let rt = spec_add_group(tail, k, o);
        lemma_add_group_keys(tail, k, o);
        assert forall|j: int| 0 <= j < r.len() implies #[trigger] r[j].0 == k || exists|i: int|
            0 <= i < g.len() && g[i].0 == r[j].0 by {
            if j == 0 {
                assert(g[0].0 == r[0].0);
            } else {
                assert(r[j] == rt[j - 1]);
                if rt[j - 1].0 != k {
                    let i = choose|i: int| 0 <= i < tail.len() && tail[i].0 == rt[j - 1].0;
                    assert(g[i + 1].0 == r[j].0);
                }
            }
        }
    }
}

/// Appending preserves distinctness of keys: a finding built by appending
/// stays a mapping.
pub proof fn lemma_add_group_distinct(
    g: Seq<(AddressModel, Seq<OutputModel>)>,
    k: AddressModel,
    o: OutputModel,
)
    requires
        distinct_keys(g),
    ensures
        distinct_keys(spec_add_group(g, k, o)),
    decreases g.len(),
{
    let r = spec_add_group(g, k, o);
    if g.len() == 0 {
    } else if g[0].0 == k {
        assert forall|i: int, j: int| 0 <= i < j < r.len() implies r[i].0 != r[j].0 by {
            assert(r[i].0 == g[i].0 && r[j].0 == g[j].0);
        }
    } else {
        let tail = g.subrange(1, g.len() as int);
        let rt = spec_add_group(tail, k, o);
        assert(distinct_keys(tail)) by {
            assert(forall|i: int, j: int|
                0 <= i < j < tail.len() ==> g[i + 1].0 == tail[i].0 && g[j + 1].0 == tail[j].0);
        }
        lemma_add_group_distinct(tail, k, o);
        lemma_add_group_keys(tail, k, o);
        assert forall|i: int, j: int| 0 <= i < j < r.len() implies r[i].0 != r[j].0 by {
            if i == 0 {
                assert(r[j] == rt[j - 1]);
                if rt[j - 1].0 != k {
                    let n = choose|n: int| 0 <= n < tail.len() && tail[n].0 == rt[j - 1].0;
                    assert(g[0].0 != g[n + 1].0);
                }
            } else {
                assert(r[i] == rt[i - 1] && r[j] == rt[j - 1]);
            }
        }
    }
}

/// Appending under a key that already heads a group at position `i` (and
/// nowhere earlier) extends exactly that group.
proof fn lemma_add_group_at(
    g: Seq<(AddressModel, Seq<OutputModel>)>,
    k: AddressModel,
    o: OutputModel,
    i: int,
)
    requires
        0 <= i < g.len(),
        g[i].0 == k,
        forall|j: int| 0 <= j < i ==> g[j].0 != k,
    ensures
        spec_add_group(g, k, o) == g.update(i, (g[i].0, g[i].1.push(o))),
    decreases g.len(),
{
    if i == 0 {
        assert(spec_add_group(g, k, o) =~= g.update(0, (g[0].0, g[0].1.push(o))));
    } else {
        let tail = g.subrange(1, g.len() as int);
        assert(forall|j: int| 0 <= j < i - 1 ==> tail[j].0 != k);
        lemma_add_group_at(tail, k, o, i - 1);
        assert(spec_add_group(g, k, o) =~= g.update(i, (g[i].0, g[i].1.push(o))));
    }
}

/// Appending under a key that heads no group opens a new group at the end.
proof fn lemma_add_group_new(g: Seq<(AddressModel, Seq<OutputModel>)>, k: AddressModel, o: OutputModel)
    requires
        forall|j: int| 0 <= j < g.len() ==> g[j].0 != k,
    ensures
        spec_add_group(g, k, o) == g.push((k, seq![o])),
    decreases g.len(),
{
    if g.len() == 0 {
        assert(spec_add_group(g, k, o) =~= g.push((k, seq![o])));
    } else {
        let tail = g.subrange(1, g.len() as int);
        lemma_add_group_new(tail, k, o);
        assert(spec_add_group(g, k, o) =~= g.push((k, seq![o])));
    }
}

/// An output is in the extended finding exactly when it was already there
/// or it is the one just appended.
pub proof fn lemma_add_group_contains(
    g: Seq<(AddressModel, Seq<OutputModel>)>,
    k: AddressModel,
    o: OutputModel,
    x: OutputModel,
)
    ensures
        finding_contains(spec_add_group(g, k, o), x) <==> (finding_contains(g, x) || x == o),
    decreases g.len(),
{
    let r = spec_add_group(g, k, o);
    if g.len() == 0 {
        assert(r[0].1 == seq![o]);
        assert(r[0].1.contains(x) <==> x == o) by {
            if x == o {
                assert(r[0].1[0] == x);
            }
        }
    } else if g[0].0 == k {
        assert(r[0].1 == g[0].1.push(o));
        assert(forall|j: int| 1 <= j < r.len() ==> r[j] == g[j]);
        if finding_contains(r, x) {
            let i = choose|i: int| 0 <= i < r.len() && #[trigger] r[i].1.contains(x);
            if i == 0 {
                if x != o {
                    let n = choose|n: int| 0 <= n < r[0].1.len() && r[0].1[n] == x;
                    assert(g[0].1[n] == x);
                    assert(g[0].1.contains(x));
                }
            } else {
                assert(g[i].1.contains(x));
            }
        }
        if finding_contains(g, x) {
            let i = choose|i: int| 0 <= i < g.len() && #[trigger] g[i].1.contains(x);
            if i == 0 {
                let n = choose|n: int| 0 <= n < g[0].1.len() && g[0].1[n] == x;
                assert(r[0].1[n] == x);
                assert(r[0].1.contains(x));
            } else {
                assert(r[i].1.contains(x));
            }
        }
        if x == o {
            assert(r[0].1[g[0].1.len() as int] == o);
            assert(r[0].1.contains(x));
        }
    } else {
        let tail = g.subrange(1, g.len() as int);
        lemma_add_group_contains(tail, k, o, x);
        let rt = spec_add_group(tail, k, o);
        assert(r == seq![g[0]] + rt);
        assert(r[0] == g[0]);
        assert(forall|j: int| 0 <= j < rt.len() ==> r[j + 1] == rt[j]);
        if finding_contains(r, x) {
            let i = choose|i: int| 0 <= i < r.len() && #[trigger] r[i].1.contains(x);
            if i == 0 {
                assert(g[0].1.contains(x));
                assert(finding_contains(g, x));
            } else {
                assert(rt[i - 1].1.contains(x));
                assert(finding_contains(rt, x));
                if finding_contains(tail, x) {
                    let n = choose|n: int| 0 <= n < tail.len() && #[trigger] tail[n].1.contains(x);
                    assert(g[n + 1].1.contains(x));
                    assert(finding_contains(g, x));
                }
            }
        }
        if finding_contains(g, x) {
            let i = choose|i: int| 0 <= i < g.len() && #[trigger] g[i].1.contains(x);
            if i == 0 {
                assert(r[0].1.contains(x));
            } else {
                assert(tail[i - 1].1.contains(x));
                assert(finding_contains(tail, x));
                assert(finding_contains(rt, x));
                let n = choose|n: int| 0 <= n < rt.len() && #[trigger] rt[n].1.contains(x);
                assert(r[n + 1].1.contains(x));
            }
        }
        if x == o {
            assert(finding_contains(rt, x));
            let n = choose|n: int| 0 <= n < rt.len() && #[trigger] rt[n].1.contains(x);
            assert(r[n + 1].1.contains(x));
        }
    }
}

impl Finding {
    /// An empty finding.
    pub fn new() -> (r: Finding)
        ensures
            r@ == Seq::<(AddressModel, Seq<OutputModel>)>::empty(),
    {
        let r = Finding { groups: Vec::new() };
        assert(r@ =~= Seq::<(AddressModel, Seq<OutputModel>)>::empty());
        r
    }

    /// The position of the group keyed by `key`, if one exists.
    fn find_group(&self, key: &Address) -> (r: Option<usize>)
        ensures
            (match r {
                Some(i) => i < self.groups@.len() && self@[i as int].0 == key@ && forall|j: int|
                    0 <= j < i ==> self@[j].0 != key@,
                None => forall|j: int| 0 <= j < self@.len() ==> self@[j].0 != key@,
            }),
    {
        let n = self.groups.len();
        let mut i: usize = 0;
        while i < n
            invariant
                n == self.groups@.len(),
                i <= n,
                forall|j: int| 0 <= j < i ==> self@[j].0 != key@,
            decreases n - i,
        {
            if self.groups[i].key.same_as(key) {
                return Some(i);
            }
            i += 1;
        }
        None
    }

    /// Append `out` under `key`, keeping first-encounter group order and
    /// per-group append order.
    pub fn add(&mut self, key: Address, out: Output)
        ensures
            final(self)@ == spec_add_group(old(self)@, key@, out@),
    {
        let ghost old_view = self@;
        match self.find_group(&key) {
            Some(i) => {
                let mut g = self.groups.remove(i);
                g.outputs.push(out);
                self.groups.insert(i, g);
                proof {
                    lemma_add_group_at(old_view, key@, out@, i as int);
                    assert(self@ =~~= old_view.update(
                        i as int,
                        (old_view[i as int].0, old_view[i as int].1.push(out@)),
                    ));
                }
            },
            None => {
                let mut outs: Vec<Output> = Vec::new();
                outs.push(out);
                self.groups.push(Group { key, outputs: outs });
                proof {
                    lemma_add_group_new(old_view, key@, out@);
                    assert(outs.deep_view() =~= seq![out@]);
                    assert(self@ =~~= old_view.push((key@, seq![out@])));
                }
            },
        }
    }

    /// How many groups this finding has (the count of distinct keys).
    pub fn group_count(&self) -> (r: usize)
        ensures
            r == self@.len(),
    {
        self.groups.len()
    }

    /// Whether this finding flags nothing.
    pub fn is_empty(&self) -> (r: bool)
        ensures
            r == (self@.len() == 0),
    {
        self.groups.len() == 0
    }

    /// How many outputs this finding holds over all groups, saturating at
    /// the largest representable count.
    pub fn total_outputs(&self) -> (r: u64)
        ensures
            r as nat == (if spec_total_outputs(self@) > u64::MAX as nat {
                u64::MAX as nat
            } else {
                spec_total_outputs(self@)
            }),
    {
        let n = self.groups.len();
        let mut total: u64 = 0;
        let mut i: usize = 0;
        while i < n
            invariant
                n == self.groups@.len(),
                i <= n,
                total as nat == (if spec_total_outputs(self@.take(i as int)) > u64::MAX as nat {
                    u64::MAX as nat
                } else {
                    spec_total_outputs(self@.take(i as int))
                }),
            decreases n - i,
        {
            let len = self.groups[i].outputs.len();
            proof {
                assert(self@.take(i + 1).drop_last() =~= self@.take(i as int));
                assert(self@.take(i + 1).last() == self@[i as int]);
            }
            if len as u64 > u64::MAX - total {
                total = u64::MAX;
            } else {
                total = total + len as u64;
            }
            i += 1;
        }
        proof {
            assert(self@.take(n as int) =~= self@);
        }
        total
    }

    /// Compare two findings for equality of their abstract value: the same
    /// keys in the same order, each holding the same outputs in the same
    /// order.
    pub fn same_as(&self, other: &Finding) -> (r: bool)
        ensures
            r == (self@ == other@),
    {
        let n = self.groups.len();
        if n != other.groups.len() {
            assert(self@.len() != other@.len());
            return false;
        }
        let mut i: usize = 0;
        while i < n
            invariant
                n == self.groups@.len() == other.groups@.len(),
                i <= n,
                forall|j: int| 0 <= j < i ==> self@[j] == other@[j],
            decreases n - i,
        {
            if !group_same(&self.groups[i], &other.groups[i]) {
                assert(self@[i as int] != other@[i as int]);
                return false;
            }
            i += 1;
        }
        assert(self@ =~= other@);
        true
    }
}

/// Compare two groups for equality of their abstract value.
fn group_same(a: &Group, b: &Group) -> (r: bool)
    ensures
        r == (a.deep_view() == b.deep_view()),
{
    if !a.key.same_as(&b.key) {
        return false;
    }
    let n = a.outputs.len();
    if n != b.outputs.len() {
        assert(a.deep_view().1.len() != b.deep_view().1.len());
        return false;
    }
    let mut i: usize = 0;
    while i < n
        invariant
            n == a.outputs@.len() == b.outputs@.len(),
            a.key@ == b.key@,
            i <= n,
            forall|j: int| 0 <= j < i ==> a.outputs.deep_view()[j] == b.outputs.deep_view()[j],
        decreases n - i,
    {
        if !a.outputs[i].same_as(&b.outputs[i]) {
            assert(a.outputs.deep_view()[i as int] != b.outputs.deep_view()[i as int]);
            return false;
        }
        i += 1;
    }
    assert(a.outputs.deep_view() =~= b.outputs.deep_view());
    true
}

} // verus!
