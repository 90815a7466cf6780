use vstd::prelude::*;

use crate::sprites::TexRect;
use crate::GameError;
use vstd::string::StringExecFns;

verus! {

/// One drawable sprite occurrence: a model transform given as plain values
/// (center position and scale, in world ticks), the z-ordering key (world
/// ticks as well), the texture-atlas region, and the texture-array index.
/// Instances are immutable values with structural equality; equality is what
/// locates a previously inserted flag instance when it is removed.
#[derive(Clone, Copy, Debug, PartialEq, Eq, Structural)]
pub struct SpriteInstance {
    pub x: i64,
    pub y: i64,
    pub scale_x: i64,
    pub scale_y: i64,
    pub z_index: i64,
    pub tex: TexRect,
    pub texture_index: u32,
}

/// The reserved placeholder that always heads the flattened render sequence:
/// the render pipeline requires a non-empty instance buffer at all times.
pub open spec fn blank_instance() -> SpriteInstance {
    SpriteInstance {
        x: 0,
        y: 0,
        scale_x: 0,
        scale_y: 0,
        z_index: 0,
        tex: TexRect { x0: 0, y0: 0, x1: 0, y1: 0 },
        texture_index: 0,
    }
}

impl SpriteInstance {
    /// The placeholder instance.
    pub fn blank() -> (r: SpriteInstance)
        ensures
            r == blank_instance(),
    {
        SpriteInstance {
            x: 0,
            y: 0,
            scale_x: 0,
            scale_y: 0,
            z_index: 0,
            tex: TexRect { x0: 0, y0: 0, x1: 0, y1: 0 },
            texture_index: 0,
        }
    }
}

/// A named bucket of draw instances that share a draw purpose and a z key.
#[derive(Debug)]
pub struct Group {
    pub name: String,
    pub items: Vec<SpriteInstance>,
}

/// Draw order of two groups: a group draws no later than another when its
/// first instance's z key is at most the other's; a group with no instances
/// sorts after every non-empty group, and ties keep the prior order.
pub open spec fn group_le(a: Group, b: Group) -> bool {
    if a.items@.len() == 0 {
        b.items@.len() == 0
    } else {
        b.items@.len() == 0 || a.items@[0].z_index <= b.items@[0].z_index
    }
}

/// Inserts `x` into the already-sorted `s`, before the first entry that `x`
/// draws no later than; `x` therefore goes in front of entries with its own
/// key, which keeps a left-to-right insertion sort stable.
pub open spec fn insert_by_z(x: Group, s: Seq<Group>) -> Seq<Group>
    decreases s.len(),
{
    if s.len() == 0 {
        seq![x]
    } else if group_le(x, s[0]) {
        seq![x] + s
    } else {
        seq![s[0]] + insert_by_z(x, s.drop_first())
    }
}

/// The stable sort of the groups by draw order: each group in turn is
/// inserted into the sorted rest, in front of the groups of equal key that
/// followed it.
pub open spec fn sort_by_z(s: Seq<Group>) -> Seq<Group>
    decreases s.len(),
{
    if s.len() == 0 {
        Seq::empty()
    } else {
        insert_by_z(s[0], sort_by_z(s.drop_first()))
    }
}

/// The instances of the groups, concatenated in group order.
pub open spec fn concat_items(gs: Seq<Group>) -> Seq<SpriteInstance>
    decreases gs.len(),
{
    if gs.len() == 0 {
        Seq::empty()
    } else {
        gs[0].items@ + concat_items(gs.drop_first())
    }
}

/// The flattened render sequence of a group table: the blank placeholder
/// first, then every group's instances, groups in stable z order.
pub open spec fn flatten_spec(gs: Seq<Group>) -> Seq<SpriteInstance> {
    seq![blank_instance()] + concat_items(sort_by_z(gs))
}

/// The position of the first group at or after `i` named `name`, or -1.
pub open spec fn find_group_from(gs: Seq<Group>, i: int, name: Seq<char>) -> int
    decreases gs.len() - i,
{
    if i < 0 || i >= gs.len() {
        -1
    } else if gs[i].name@ == name {
        i
    } else {
        find_group_from(gs, i + 1, name)
    }
}

/// The position of the first group named `name`, or -1 if there is none.
pub open spec fn find_group(gs: Seq<Group>, name: Seq<char>) -> int {
    find_group_from(gs, 0, name)
}

/// The position of the first instance at or after `i` equal to `x`, or -1.
pub open spec fn find_item_from(items: Seq<SpriteInstance>, i: int, x: SpriteInstance) -> int
    decreases items.len() - i,
{
    if i < 0 || i >= items.len() {
        -1
    } else if items[i] == x {
        i
    } else {
        find_item_from(items, i + 1, x)
    }
}

/// The position of the first instance equal to `x`, or -1 if there is none.
pub open spec fn find_item(items: Seq<SpriteInstance>, x: SpriteInstance) -> int {
    find_item_from(items, 0, x)
}

/// The named groups of draw instances, together with the flattened render
/// sequence derived from them. The flattening is rebuilt by every mutating
/// call, so a caller never observes a stale one.
#[derive(Debug)]
pub struct InstanceTable {
    pub groups: Vec<Group>,
    pub flattened: Vec<SpriteInstance>,
}

impl InstanceTable {
    /// The flattened sequence is exactly the one the groups derive to.
    pub open spec fn wf(self) -> bool {
        self.flattened@ == flatten_spec(self.groups@)
    }

    /// An empty table: no groups, and the placeholder alone in the buffer.
    pub fn new() -> (t: InstanceTable)
        ensures
            t.wf(),
            t.groups@.len() == 0,
            t.flattened@ == seq![blank_instance()],
    {
        let mut flattened: Vec<SpriteInstance> = Vec::new();
        flattened.push(SpriteInstance::blank());
        proof {
            assert(flattened@ =~= seq![blank_instance()]);
            assert(flattened@ =~= flatten_spec(Seq::<Group>::empty()));
        }
        InstanceTable { groups: Vec::new(), flattened }
    }

    /// Appends `instances` to the group called `name`, creating the group if
    /// there is none, and rebuilds the flattened sequence.
    pub fn upsert(&mut self, name: &str, instances: Vec<SpriteInstance>)
        ensures
            final(self).wf(),
            ({
                let g = find_group(old(self).groups@, name@);
                if g == -1 {
                    &&& final(self).groups@.len() == old(self).groups@.len() + 1
                    &&& final(self).groups@.last().name@ == name@
                    &&& final(self).groups@.last().items@ == instances@
                    &&& forall|j: int|
                        0 <= j < old(self).groups@.len() ==> final(self).groups@[j] == old(
                            self,
                        ).groups@[j]
                } else {
                    &&& final(self).groups@.len() == old(self).groups@.len()
                    &&& final(self).groups@[g].name@ == name@
                    &&& final(self).groups@[g].items@ == old(self).groups@[g].items@ + instances@
                    &&& forall|j: int|
                        0 <= j < old(self).groups@.len() && j != g ==> final(self).groups@[j]
                            == old(self).groups@[j]
                }
            }),
    {
        proof {
            lemma_find_group_from_props(self.groups@, 0, name@);
        }
        let mut instances = instances;
        let wanted: String = String::from_str(name);
        match find_group_exec(&self.groups, &wanted) {
            Some(g) => {
                self.groups[g].items.append(&mut instances);
            },
            None => {
                self.groups.push(Group { name: wanted, items: instances });
            },
        }
        self.rebuild();
    }

    /// Removes the first instance equal to `instance` from the group called
    /// `name`; an absent instance is a no-op. Calling this for a group that
    /// does not exist is the `StateInconsistency` failure: it means the
    /// caller's tracking of its own instances has gone wrong.
    pub fn remove_by_value(&mut self, name: &str, instance: &SpriteInstance) -> (r: Result<
        (),
        GameError,
    >)
        requires
            old(self).wf(),
        ensures
            final(self).wf(),
            r is Err <==> find_group(old(self).groups@, name@) == -1,
            r is Err ==> r == Err::<(), GameError>(GameError::StateInconsistency) && *final(self)
                == *old(self),
            r is Ok ==> ({
                let g = find_group(old(self).groups@, name@);
                let j = find_item(old(self).groups@[g].items@, *instance);
                &&& final(self).groups@.len() == old(self).groups@.len()
                &&& forall|k: int|
                    0 <= k < old(self).groups@.len() && k != g ==> final(self).groups@[k] == old(
                        self,
                    ).groups@[k]
                &&& final(self).groups@[g].name@ == old(self).groups@[g].name@
                &&& (j == -1 ==> final(self).groups@[g].items@ == old(self).groups@[g].items@)
                &&& (j != -1 ==> final(self).groups@[g].items@ == old(
                    self,
                ).groups@[g].items@.remove(j))
            }),
    {
        proof {
            lemma_find_group_from_props(self.groups@, 0, name@);
        }
        let wanted: String = String::from_str(name);
        match find_group_exec(&self.groups, &wanted) {
            Some(g) => {
                match find_item_exec(&self.groups[g].items, instance) {
                    Some(j) => {
                        self.groups[g].items.remove(j);
                    },
                    None => (),
                }
                self.rebuild();
                Ok(())
            },
            None => Err(GameError::StateInconsistency),
        }
    }

    /// Empties the table: no groups are left, and the flattened sequence is
    /// reset to the placeholder alone.
    pub fn clear_all(&mut self)
        ensures
            final(self).wf(),
            final(self).groups@.len() == 0,
            final(self).flattened@ == seq![blank_instance()],
    {
        self.groups.clear();
        self.flattened.clear();
        self.flattened.push(SpriteInstance::blank());
        proof {
            assert(self.flattened@ =~= seq![blank_instance()]);
            assert(self.flattened@ =~= flatten_spec(Seq::<Group>::empty()));
            assert(self.groups@ =~= Seq::<Group>::empty());
        }
    }

    /// The flattened render sequence: the placeholder first, then the groups'
    /// instances with lower-z groups first and ties kept in prior order.
    pub fn flatten_ordered(&self) -> (r: &Vec<SpriteInstance>)
        requires
            self.wf(),
        ensures
            r@ == flatten_spec(self.groups@),
            r@.len() >= 1,
    {
        proof {
            assert(self.flattened@[0] == blank_instance());
        }
        &self.flattened
    }

    /// Rederives the flattened sequence from the groups: a stable insertion
    /// sort of the group positions by z key, then one pass that copies the
    /// instances group by group behind the placeholder.
    #[verifier::loop_isolation(false)]
    #[verifier::rlimit(100)]
    fn rebuild(&mut self)
        ensures
            final(self).groups == old(self).groups,
            final(self).wf(),
    {
        let ghost gs = self.groups@;
        let n = self.groups.len();
        let mut order: Vec<usize> = Vec::new();
        let mut i: usize = n;
        while i > 0
            invariant
                0 <= i <= n,
                self.groups@ == gs,
                self.flattened@ == old(self).flattened@,
                forall|k: int| 0 <= k < order@.len() ==> (#[trigger] order@[k]) < n,
                Seq::new(order@.len(), |k: int| gs[order@[k] as int]) == sort_by_z(
                    gs.skip(i as int),
                ),
            decreases i,
        {
            i = i - 1;
            let ghost order_pre = order@;
            let ghost mapped_pre = Seq::new(order@.len(), |k: int| gs[order@[k] as int]);
            let mut p: usize = 0;
            while p < order.len() && !group_le_exec(&self.groups[i], &self.groups[order[p]])
                invariant
                    0 <= p <= order@.len(),
                    order@ == order_pre,
                    self.groups@ == gs,
                    forall|j: int| 0 <= j < p ==> !group_le(gs[i as int], mapped_pre[j]),
                decreases order@.len() - p,
            {
                proof {
                    assert(mapped_pre[p as int] == gs[order@[p as int] as int]);
                }
                p = p + 1;
            }
            order.insert(p, i);
            proof {
                lemma_insert_by_z_at(gs[i as int], mapped_pre, p as int);
                let mapped_now = Seq::new(order@.len(), |k: int| gs[order@[k] as int]);
                assert(order@ == order_pre.insert(p as int, i));
                assert forall|k: int| 0 <= k < mapped_now.len() implies mapped_now[k] == (
                mapped_pre.take(p as int) + seq![gs[i as int]] + mapped_pre.skip(p as int))[k] by {
                    if k < p {
                        assert(order@[k] == order_pre[k]);
                    } else if k == p {
                        assert(order@[k] == i);
                    } else {
                        assert(order@[k] == order_pre[k - 1]);
                    }
                }
                assert(mapped_now =~= mapped_pre.take(p as int) + seq![gs[i as int]]
                    + mapped_pre.skip(p as int));
                assert(gs.skip(i as int).drop_first() =~= gs.skip(i as int + 1));
                assert(gs.skip(i as int)[0] == gs[i as int]);
                assert(mapped_now == sort_by_z(gs.skip(i as int)));
            }
        }
        proof {
            assert(gs.skip(0) =~= gs);
        }
        let ghost sorted = sort_by_z(gs);
        let mut flat: Vec<SpriteInstance> = Vec::new();
        flat.push(SpriteInstance::blank());
        proof {
            assert(flat@ =~= seq![blank_instance()] + concat_items(sorted.take(0)));
            assert(concat_items(sorted.take(0)) =~= Seq::<SpriteInstance>::empty());
        }
        let mut j: usize = 0;
        while j < order.len()
            invariant
                0 <= j <= order@.len(),
                self.groups@ == gs,
                order@.len() == sorted.len(),
                forall|k: int| 0 <= k < order@.len() ==> (#[trigger] order@[k]) < gs.len(),
                Seq::new(order@.len(), |k: int| gs[order@[k] as int]) == sorted,
                flat@ == seq![blank_instance()] + concat_items(sorted.take(j as int)),
            decreases order@.len() - j,
        {
            let oi = order[j];
            proof {
                assert(Seq::new(order@.len(), |k: int| gs[order@[k] as int])[j as int] == gs[
                    oi as int]);
                assert(sorted[j as int] == gs[oi as int]);
            }
            let ghost flat_group_start = flat@;
            let m = self.groups[oi].items.len();
            let mut t: usize = 0;
            while t < m
                invariant
                    0 <= t <= m,
                    self.groups@ == gs,
                    oi < gs.len(),
                    m == gs[oi as int].items@.len(),
                    flat@ == flat_group_start + gs[oi as int].items@.take(t as int),
                decreases m - t,
            {
                flat.push(self.groups[oi].items[t]);
                proof {
                    assert(gs[oi as int].items@.take(t as int + 1) =~= gs[oi as int].items@.take(
                        t as int,
                    ).push(gs[oi as int].items@[t as int]));
                    assert(flat@ =~= flat_group_start + gs[oi as int].items@.take(t as int + 1));
                }
                t = t + 1;
            }
            proof {
                assert(gs[oi as int].items@.take(m as int) =~= gs[oi as int].items@);
                lemma_concat_take_step(sorted, j as int);
                assert(flat@ =~= seq![blank_instance()] + concat_items(sorted.take(j as int + 1)));
            }
            j = j + 1;
        }
        proof {
            assert(sorted.take(sorted.len() as int) =~= sorted);
        }
        self.flattened = flat;
    }
}

/// A found group position is in range and bears the name searched for.
pub proof fn lemma_find_group_props(gs: Seq<Group>, name: Seq<char>)
    ensures
        find_group(gs, name) != -1 ==> 0 <= find_group(gs, name) < gs.len() && gs[find_group(
            gs,
            name,
        )].name@ == name,
{
    lemma_find_group_from_props(gs, 0, name);
}

/// A found group position is in range and bears the name searched for.
proof fn lemma_find_group_from_props(gs: Seq<Group>, i: int, name: Seq<char>)
    requires
        0 <= i,
    ensures
        ({
            let r = find_group_from(gs, i, name);
            r != -1 ==> i <= r < gs.len() && gs[r].name@ == name
        }),
    decreases gs.len() - i,
{
    if i < gs.len() && gs[i].name@ != name {
        lemma_find_group_from_props(gs, i + 1, name);
    }
}

/// Draw-order test of two groups; see `group_le`.
fn group_le_exec(a: &Group, b: &Group) -> (r: bool)
    ensures
        r == group_le(*a, *b),
{
    if a.items.len() == 0 {
        b.items.len() == 0
    } else if b.items.len() == 0 {
        true
    } else {
        a.items[0].z_index <= b.items[0].z_index
    }
}

/// Finds the first group called `name`, as `find_group` names it.
fn find_group_exec(groups: &Vec<Group>, name: &String) -> (r: Option<usize>)
    ensures
        r matches Some(g) ==> find_group(groups@, name@) == g as int && g < groups@.len(),
        r is None <==> find_group(groups@, name@) == -1,
{
    let n = groups.len();
    let mut i: usize = 0;
    while i < n
        invariant
            0 <= i <= n,
            n == groups@.len(),
            find_group_from(groups@, i as int, name@) == find_group(groups@, name@),
        decreases n - i,
    {
        if groups[i].name == *name {
            return Some(i);
        }
        i = i + 1;
    }
    None
}

/// Finds the first instance equal to `x`, as `find_item` names it.
fn find_item_exec(items: &Vec<SpriteInstance>, x: &SpriteInstance) -> (r: Option<usize>)
    ensures
        r matches Some(j) ==> find_item(items@, *x) == j as int && j < items@.len(),
        r is None <==> find_item(items@, *x) == -1,
{
    let n = items.len();
    let mut i: usize = 0;
    while i < n
        invariant
            0 <= i <= n,
            n == items@.len(),
            find_item_from(items@, i as int, *x) == find_item(items@, *x),
        decreases n - i,
    {
        if items[i] == *x {
            return Some(i);
        }
        i = i + 1;
    }
    None
}

/// Where `insert_by_z` puts `x`: before position `p`, the first whose entry
/// `x` draws no later than.
proof fn lemma_insert_by_z_at(x: Group, s: Seq<Group>, p: int)
    requires
        0 <= p <= s.len(),
        forall|j: int| 0 <= j < p ==> !group_le(x, #[trigger] s[j]),
        p < s.len() ==> group_le(x, s[p]),
    ensures
        insert_by_z(x, s) == s.take(p) + seq![x] + s.skip(p),
    decreases p,
{
    if p == 0 {
        if s.len() == 0 {
            assert(insert_by_z(x, s) =~= s.take(0) + seq![x] + s.skip(0));
        } else {
            assert(group_le(x, s[0]));
            assert(seq![x] + s =~= s.take(0) + seq![x] + s.skip(0));
        }
    } else {
        assert(!group_le(x, s[0]));
        assert forall|j: int| 0 <= j < p - 1 implies !group_le(x, #[trigger] s.drop_first()[j]) by {
            assert(s.drop_first()[j] == s[j + 1]);
        }
        assert(p - 1 < s.drop_first().len() ==> group_le(x, s.drop_first()[p - 1]));
        lemma_insert_by_z_at(x, s.drop_first(), p - 1);
        assert(seq![s[0]] + (s.drop_first().take(p - 1) + seq![x] + s.drop_first().skip(p - 1))
            =~= s.take(p) + seq![x] + s.skip(p));
    }
}

/// Concatenating one more group appends exactly that group's instances.
proof fn lemma_concat_take_step(s: Seq<Group>, j: int)
    requires
        0 <= j < s.len(),
    ensures
        concat_items(s.take(j + 1)) == concat_items(s.take(j)) + s[j].items@,
    decreases j,
{
    reveal_with_fuel(concat_items, 3);
    if j == 0 {
        assert(s.take(1).drop_first() =~= Seq::<Group>::empty());
        assert(s.take(1)[0] == s[0]);
        assert(concat_items(s.take(0)) =~= Seq::<SpriteInstance>::empty());
        assert(concat_items(s.take(1)) =~= concat_items(s.take(0)) + s[0].items@);
    } else {
        lemma_concat_take_step(s.drop_first(), j - 1);
        assert(s.take(j + 1).drop_first() =~= s.drop_first().take(j));
        assert(s.take(j).drop_first() =~= s.drop_first().take(j - 1));
        assert(s.take(j + 1)[0] == s[0]);
        assert(s.take(j)[0] == s[0]);
        assert(s.drop_first()[j - 1] == s[j]);
        assert(concat_items(s.take(j + 1)) == s[0].items@ + concat_items(s.drop_first().take(j)));
        assert(concat_items(s.take(j)) == s[0].items@ + concat_items(s.drop_first().take(j - 1)));
        assert(s[0].items@ + (concat_items(s.drop_first().take(j - 1)) + s[j].items@) =~= (
        s[0].items@ + concat_items(s.drop_first().take(j - 1))) + s[j].items@);
    }
}

/// The group draw order is total: of any two groups one draws no later.
proof fn lemma_group_le_total(a: Group, b: Group)
    ensures
        group_le(a, b) || group_le(b, a),
{
}

/// The group draw order is transitive.
proof fn lemma_group_le_trans(a: Group, b: Group, c: Group)
    requires
        group_le(a, b),
        group_le(b, c),
    ensures
        group_le(a, c),
{
}

/// What `insert_by_z` builds: one entry longer, the same groups plus `x`
/// (as a multiset), still in draw order, out of nothing but `x` and `s`.
proof fn lemma_insert_by_z_props(x: Group, s: Seq<Group>)
    requires
        forall|i: int, j: int| 0 <= i < j < s.len() ==> group_le(#[trigger] s[i], #[trigger] s[j]),
    ensures
        insert_by_z(x, s).len() == s.len() + 1,
        insert_by_z(x, s).to_multiset() =~= (seq![x] + s).to_multiset(),
        forall|i: int, j: int|
            0 <= i < j < insert_by_z(x, s).len() ==> group_le(
                #[trigger] insert_by_z(x, s)[i],
                #[trigger] insert_by_z(x, s)[j],
            ),
        forall|k: int|
            0 <= k < insert_by_z(x, s).len() ==> (#[trigger] insert_by_z(x, s)[k] == x
                || s.contains(insert_by_z(x, s)[k])),
    decreases s.len(),
{
    broadcast use vstd::seq_lib::group_to_multiset_ensures;

    let ins = insert_by_z(x, s);
    if s.len() == 0 {
        assert(ins =~= seq![x] + s);
    } else if group_le(x, s[0]) {
        assert(ins =~= seq![x] + s);
        assert forall|i: int, j: int| 0 <= i < j < ins.len() implies group_le(
            #[trigger] ins[i],
            #[trigger] ins[j],
        ) by {
            if i == 0 {
                if j > 1 {
                    lemma_group_le_trans(x, s[0], s[j - 1]);
                }
            }
        }
    } else {
        lemma_group_le_total(x, s[0]);
        assert forall|i: int, j: int|
            0 <= i < j < s.drop_first().len() implies group_le(
            #[trigger] s.drop_first()[i],
            #[trigger] s.drop_first()[j],
        ) by {
            assert(s.drop_first()[i] == s[i + 1] && s.drop_first()[j] == s[j + 1]);
        }
        lemma_insert_by_z_props(x, s.drop_first());
        let tail = insert_by_z(x, s.drop_first());
        assert(ins =~= seq![s[0]] + tail);
        // the first group draws no later than anything that follows it
        assert forall|k: int| 0 <= k < tail.len() implies group_le(s[0], #[trigger] tail[k]) by {
            if tail[k] == x {
            } else {
                let j = choose|j: int|
                    0 <= j < s.drop_first().len() && s.drop_first()[j] == tail[k];
                assert(tail[k] == s[j + 1]);
            }
        }
        assert forall|i: int, j: int| 0 <= i < j < ins.len() implies group_le(
            #[trigger] ins[i],
            #[trigger] ins[j],
        ) by {
            if i == 0 {
                assert(ins[j] == tail[j - 1]);
            } else {
                assert(ins[i] == tail[i - 1] && ins[j] == tail[j - 1]);
            }
        }
        assert forall|k: int| 0 <= k < ins.len() implies (#[trigger] ins[k] == x || s.contains(
            ins[k],
        )) by {
            if k > 0 && ins[k] != x {
                let j = choose|j: int|
                    0 <= j < s.drop_first().len() && s.drop_first()[j] == tail[k - 1];
                assert(s[j + 1] == ins[k]);
            }
        }
        // multiset bookkeeping: moving x over the head group
        vstd::seq_lib::lemma_multiset_commutative(seq![s[0]], tail);
        vstd::seq_lib::lemma_multiset_commutative(seq![x], s.drop_first());
        vstd::seq_lib::lemma_multiset_commutative(seq![x], s);
        assert(s =~= seq![s[0]] + s.drop_first());
        vstd::seq_lib::lemma_multiset_commutative(seq![s[0]], s.drop_first());
        assert(ins.to_multiset() =~= (seq![x] + s).to_multiset());
    }
}

/// The flatten sort really sorts: the result holds exactly the input groups
/// (as a multiset), arranged so that every group draws no later than the
/// groups after it.
pub proof fn lemma_sort_by_z_sorted(s: Seq<Group>)
    ensures
        sort_by_z(s).len() == s.len(),
        sort_by_z(s).to_multiset() =~= s.to_multiset(),
        forall|i: int, j: int|
            0 <= i < j < sort_by_z(s).len() ==> group_le(
                #[trigger] sort_by_z(s)[i],
                #[trigger] sort_by_z(s)[j],
            ),
    decreases s.len(),
{
    broadcast use vstd::seq_lib::group_to_multiset_ensures;

    if s.len() > 0 {
        lemma_sort_by_z_sorted(s.drop_first());
        lemma_insert_by_z_props(s[0], sort_by_z(s.drop_first()));
        vstd::seq_lib::lemma_multiset_commutative(seq![s[0]], sort_by_z(s.drop_first()));
        vstd::seq_lib::lemma_multiset_commutative(seq![s[0]], s.drop_first());
        assert(s =~= seq![s[0]] + s.drop_first());
    }
}

} // verus!
