//! The hit-test table.
//!
//! Every render pass rebuilds it from empty: each element that is mounted
//! in the frame gets one entry, in paint order, with the entry of its
//! parent element. An element is told of a pointer event when the event
//! falls on it or on one of its descendants: the bus scope of the topmost
//! entry under the pointer is served first, then that of its parent, and
//! so on up to the root.

use vstd::prelude::*;
use crate::event::hub::{emit_receivers, scopes_after_emit, EventDispatcher, EventHub, ScopeState};
use crate::event::standard::EventKind;
use crate::primitive::{contains, region_contains, Point, Region};

verus! {

/// One mounted element in the current frame.
#[derive(Clone, Copy, Debug, PartialEq, Eq)]
pub struct Item {
    /// The bus scope of the element.
    pub event_emitter: EventDispatcher,
    /// Where the element reacts to the pointer, if anywhere.
    pub interact_region: Option<Region>,
    /// The entry of the parent element. A root has none.
    pub parent: Option<usize>,
}

/// One subscriber that an emission resolved.
#[derive(Clone, Copy, Debug, PartialEq, Eq)]
pub struct Delivery {
    /// The entry whose scope was served.
    pub entry: usize,
    /// The ticket of the subscriber.
    pub ticket: u64,
    /// Whether the entry is the one under the pointer, and not an
    /// ancestor that the event came up to.
    pub is_current: bool,
}

pub struct ElemTable {
    emitters: Vec<Item>,
    builder_stack: Vec<usize>,
}

/// Fills the table during one render pass. While it lives, the table is
/// reachable through it alone.
pub struct Builder<'a> {
    /// The table that is being filled.
    pub table: &'a mut ElemTable,
}

/// What the table holds.
pub struct TableView {
    /// The entries, in the order in which they were pushed.
    pub entries: Seq<Item>,
    /// The entries of the elements that are being built, the outermost
    /// first.
    pub stack: Seq<usize>,
}

/// One call on a builder.
pub enum BuildStep {
    Push(EventDispatcher),
    SetRegion(usize, Option<Region>),
    Finish,
}

impl TableView {
    pub open spec fn empty() -> TableView {
        TableView { entries: Seq::empty(), stack: Seq::empty() }
    }

    /// The element that is being built, if one is.
    pub open spec fn top(self) -> Option<usize> {
        if self.stack.len() == 0 {
            None
        } else {
            Some(self.stack.last())
        }
    }

    pub open spec fn wf(self) -> bool {
        well_nested(self.entries, self.stack)
    }

    /// An element is opened: it gets the next entry, below the element
    /// that is being built, and is the one that is being built from now.
    pub open spec fn push(self, event_emitter: EventDispatcher) -> TableView {
        TableView {
            entries: self.entries.push(
                Item { event_emitter, interact_region: None, parent: self.top() },
            ),
            stack: self.stack.push(self.entries.len() as usize),
        }
    }

    /// Entry `index` reacts in `r` from now.
    pub open spec fn set_region(self, index: usize, r: Option<Region>) -> TableView {
        TableView {
            entries: self.entries.update(
                index as int,
                Item { interact_region: r, ..self.entries[index as int] },
            ),
            stack: self.stack,
        }
    }

    /// The element that is being built is closed.
    pub open spec fn finish(self) -> TableView {
        TableView { entries: self.entries, stack: self.stack.drop_last() }
    }

    /// Whether a builder in this state takes `step`.
    pub open spec fn admits(self, step: BuildStep) -> bool {
        match step {
            BuildStep::Push(_) => self.entries.len() < usize::MAX,
            BuildStep::SetRegion(index, _) => index < self.entries.len(),
            BuildStep::Finish => self.stack.len() > 0,
        }
    }

    pub open spec fn apply(self, step: BuildStep) -> TableView {
        match step {
            BuildStep::Push(event_emitter) => self.push(event_emitter),
            BuildStep::SetRegion(index, r) => self.set_region(index, r),
            BuildStep::Finish => self.finish(),
        }
    }

    /// The table after `steps`, one after the other.
    pub open spec fn replay(self, steps: Seq<BuildStep>) -> TableView
        decreases steps.len(),
    {
        if steps.len() == 0 {
            self
        } else {
            self.replay(steps.drop_last()).apply(steps.last())
        }
    }
}

/// How many elements `steps` open.
pub open spec fn pushes(steps: Seq<BuildStep>) -> int
    decreases steps.len(),
{
    if steps.len() == 0 {
        0
    } else {
        pushes(steps.drop_last()) + if steps.last() is Push {
            1int
        } else {
            0int
        }
    }
}

/// How many elements `steps` leave open: those they open, less those they
/// close.
pub open spec fn depth(steps: Seq<BuildStep>) -> int
    decreases steps.len(),
{
    if steps.len() == 0 {
        0
    } else {
        depth(steps.drop_last()) + match steps.last() {
            BuildStep::Push(_) => 1int,
            BuildStep::SetRegion(_, _) => 0int,
            BuildStep::Finish => -1int,
        }
    }
}

/// `steps` follow the nesting of a tree: they close no element that they
/// did not open, close every element that they open, and set the region
/// of no entry that is not there yet. They open no more elements than can
/// be counted.
pub open spec fn nested(steps: Seq<BuildStep>) -> bool {
    &&& pushes(steps) <= usize::MAX
    &&& forall|k: int| 0 <= k <= steps.len() ==> depth(#[trigger] steps.take(k)) >= 0
    &&& depth(steps) == 0
    &&& forall|k: int|
        0 <= k < steps.len() ==> (#[trigger] steps[k] matches BuildStep::SetRegion(index, _)
            ==> index < pushes(steps.take(k)))
}

/// The entries and the stack of open elements fit together: a parent comes
/// before its children, and the stack is the path from a root to the
/// element that is being built.
pub open spec fn well_nested(entries: Seq<Item>, stack: Seq<usize>) -> bool {
    &&& parents_first(entries)
    &&& forall|k: int| 0 <= k < stack.len() ==> #[trigger] stack[k] < entries.len()
    &&& forall|k: int|
        0 <= k < stack.len() ==> #[trigger] path_link(TableView { entries, stack }, k)
}

/// The open element at depth `k` is a root where `k` is zero, and else a
/// child of the open element at depth `k - 1`.
pub open spec fn path_link(table: TableView, k: int) -> bool {
    table.entries[table.stack[k] as int].parent == if k == 0 {
        None
    } else {
        Some(table.stack[k - 1])
    }
}

/// Every entry that has a parent comes after it.
pub open spec fn parents_first(entries: Seq<Item>) -> bool {
    forall|i: int|
        0 <= i < entries.len() ==> ((#[trigger] entries[i]).parent matches Some(p) ==> p < i)
}

/// Entry `i` exists and its region holds `point`.
pub open spec fn is_hit(entries: Seq<Item>, point: Point, i: int) -> bool {
    &&& 0 <= i < entries.len()
    &&& entries[i].interact_region matches Some(region)
    &&& region_contains(region, point)
}

/// The entry that a pointer at `point` falls on: of the entries whose
/// region holds the point, the one that was pushed last.
pub open spec fn topmost_hit(entries: Seq<Item>, point: Point) -> Option<int>
    decreases entries.len(),
{
    if entries.len() == 0 {
        None
    } else if is_hit(entries, point, entries.len() - 1) {
        Some(entries.len() - 1)
    } else {
        topmost_hit(entries.drop_last(), point)
    }
}

/// Entry `start`, then its parent, then the parent of that, up to a root.
pub open spec fn ancestry(entries: Seq<Item>, start: int) -> Seq<int>
    decreases start,
{
    if 0 <= start < entries.len() {
        match entries[start].parent {
            Some(p) => if p < start {
                seq![start] + ancestry(entries, p as int)
            } else {
                seq![start]
            },
            None => seq![start],
        }
    } else {
        Seq::empty()
    }
}

/// The entries that hear of a pointer event at `point`, in the order in
/// which they hear of it.
pub open spec fn bubble_path(entries: Seq<Item>, point: Point) -> Seq<int> {
    match topmost_hit(entries, point) {
        Some(i) => ancestry(entries, i),
        None => Seq::empty(),
    }
}

/// The scopes after a payload of `kind` went to the entries of `path`, one
/// after the other.
pub open spec fn scopes_after_path(
    scopes: Seq<ScopeState>,
    entries: Seq<Item>,
    path: Seq<int>,
    kind: EventKind,
) -> Seq<ScopeState>
    decreases path.len(),
{
    if path.len() == 0 {
        scopes
    } else {
        scopes_after_emit(
            scopes_after_path(scopes, entries, path.drop_last(), kind),
            entries[path.last()].event_emitter.scope as int,
            kind,
        )
    }
}

/// The subscribers that a payload of `kind` resolved on its way along
/// `path`, in the order in which it resolved them.
pub open spec fn deliveries_along(
    scopes: Seq<ScopeState>,
    entries: Seq<Item>,
    path: Seq<int>,
    kind: EventKind,
) -> Seq<Delivery>
    decreases path.len(),
{
    if path.len() == 0 {
        Seq::empty()
    } else {
        deliveries_along(scopes, entries, path.drop_last(), kind) + emit_receivers(
            scopes_after_path(scopes, entries, path.drop_last(), kind),
            entries[path.last()].event_emitter.scope as int,
            kind,
        ).map_values(
            |ticket: u64|
                Delivery { entry: path.last() as usize, ticket, is_current: path.len() == 1 },
        )
    }
}

impl View for ElemTable {
    type V = TableView;

    closed spec fn view(&self) -> TableView {
        TableView { entries: self.emitters@, stack: self.builder_stack@ }
    }
}

impl ElemTable {
    /// The entries, in the order in which they were pushed.
    pub open spec fn entries(&self) -> Seq<Item> {
        self@.entries
    }

    /// The elements that are being built, the outermost first.
    pub open spec fn stack(&self) -> Seq<usize> {
        self@.stack
    }

    pub open spec fn wf(&self) -> bool {
        self@.wf()
    }

    pub fn new() -> (table: Self)
        ensures
            table@ == TableView::empty(),
    {
        ElemTable { emitters: Vec::new(), builder_stack: Vec::new() }
    }

    /// Empties the table and hands out the builder of the next frame.
    /// Whatever the builder leaves behind is what the table holds once the
    /// builder is gone.
    pub fn builder(&mut self) -> (builder: Builder<'_>)
        ensures
            builder@ == TableView::empty(),
            *final(self) == *final(builder.table),
    {
        self.emitters.clear();
        self.builder_stack.clear();
        Builder { table: self }
    }

    /// How many entries the table holds.
    pub fn len(&self) -> (n: usize)
        ensures
            n == self.entries().len(),
    {
        self.emitters.len()
    }

    /// How many elements are being built.
    pub fn depth(&self) -> (n: usize)
        ensures
            n == self.stack().len(),
    {
        self.builder_stack.len()
    }

    /// Entry `index`, if there is one.
    pub fn get(&self, index: usize) -> (item: Option<Item>)
        ensures
            item == if index < self.entries().len() {
                Some(self.entries()[index as int])
            } else {
                None
            },
    {
        if index < self.emitters.len() {
            Some(self.emitters[index])
        } else {
            None
        }
    }

    /// The entry that a pointer at `point` falls on.
    pub fn hit_test(&self, point: Point) -> (hit: Option<usize>)
        ensures
            hit matches Some(i) ==> topmost_hit(self.entries(), point) == Some(i as int),
            hit is None ==> topmost_hit(self.entries(), point) is None,
    {
        let mut i: usize = self.emitters.len();
        assert(self.emitters@.take(i as int) =~= self.emitters@);
        while i > 0
            invariant
                i <= self.emitters@.len(),
                topmost_hit(self.emitters@, point) == topmost_hit(
                    self.emitters@.take(i as int),
                    point,
                ),
            decreases i,
        {
            i = i - 1;
            let ghost prefix = self.emitters@.take(i as int + 1);
            assert(prefix.drop_last() =~= self.emitters@.take(i as int));
            if let Some(re) = self.emitters[i].interact_region {
                if contains(&re, point) {
                    return Some(i);
                }
            }
        }
        assert(self.emitters@.take(0).len() == 0);
        None
    }

    /// The entries that hear of a pointer event at `point`: the topmost
    /// entry under the pointer, then each of its ancestors. Empty where the
    /// pointer falls on no entry. The way up ends at an entry without a
    /// parent, or at one whose parent does not come before it, which no
    /// builder leaves behind.
    pub fn bubble(&self, point: Point) -> (path: Vec<usize>)
        ensures
            path@.map_values(|i: usize| i as int) == bubble_path(self.entries(), point),
    {
        let mut path: Vec<usize> = Vec::new();
        let mut selected: Option<usize> = self.hit_test(point);
        let ghost entries = self.emitters@;
        proof {
            lemma_hit_is_topmost(entries, point);
            assert(path@.map_values(|i: usize| i as int) =~= Seq::<int>::empty());
        }
        while selected.is_some()
            invariant
                entries == self.emitters@,
                selected matches Some(i) ==> i < entries.len(),
                bubble_path(entries, point) == path@.map_values(|i: usize| i as int) + (
                match selected {
                    Some(i) => ancestry(entries, i as int),
                    None => Seq::empty(),
                }),
            decreases
                    match selected {
                        Some(i) => i as int + 1,
                        None => 0,
                    },
        {
            let index: usize = selected.unwrap();
            let item: Item = self.emitters[index];
            let ghost before = path@.map_values(|i: usize| i as int);
            path.push(index);
            selected = match item.parent {
                Some(parent) => if parent < index {
                    Some(parent)
                } else {
                    None
                },
                None => None,
            };
            proof {
                assert(path@.map_values(|i: usize| i as int) =~= before.push(index as int));
                let rest = match selected {
                    Some(i) => ancestry(entries, i as int),
                    None => Seq::empty(),
                };
                assert(ancestry(entries, index as int) =~= seq![index as int] + rest);
                assert(before + (seq![index as int] + rest) =~= before.push(index as int) + rest);
            }
        }
        path
    }

    /// Sends a payload of `kind` to the element under the pointer at
    /// `point` and to its ancestors: the scope of each entry on the path is
    /// served in turn, the topmost entry first. What comes back names every
    /// subscriber that was resolved, in that order. Where the pointer falls
    /// on no entry, nobody is served.
    pub fn emit(&self, hub: &mut EventHub, point: Point, kind: EventKind) -> (delivered: Vec<
        Delivery,
    >)
        ensures
            delivered@ == deliveries_along(
                old(hub)@,
                self.entries(),
                bubble_path(self.entries(), point),
                kind,
            ),
            final(hub)@ == scopes_after_path(
                old(hub)@,
                self.entries(),
                bubble_path(self.entries(), point),
                kind,
            ),
            final(hub).issued() == old(hub).issued(),
    {
        let path = self.bubble(point);
        let ghost entries = self.emitters@;
        let ghost steps = bubble_path(entries, point);
        let mut delivered: Vec<Delivery> = Vec::new();
        let mut k: usize = 0;
        proof {
            lemma_path_in_range(entries, point);
            assert(steps.take(0) =~= Seq::<int>::empty());
        }
        while k < path.len()
            invariant
                k <= path@.len(),
                entries == self.emitters@,
                steps == path@.map_values(|i: usize| i as int),
                forall|j: int| 0 <= j < steps.len() ==> 0 <= #[trigger] steps[j] < entries.len(),
                delivered@ == deliveries_along(old(hub)@, entries, steps.take(k as int), kind),
                hub@ == scopes_after_path(old(hub)@, entries, steps.take(k as int), kind),
                hub.issued() == old(hub).issued(),
            decreases path@.len() - k,
        {
            let index: usize = path[k];
            assert(steps[k as int] == index as int);
            let item: Item = self.emitters[index];
            let resolved = hub.emit(item.event_emitter, kind);
            let ghost done = delivered@;
            let mut t: usize = 0;
            while t < resolved.len()
                invariant
                    t <= resolved@.len(),
                    delivered@ == done + resolved@.take(t as int).map_values(
                        |ticket: u64| Delivery { entry: index, ticket, is_current: k == 0 },
                    ),
                decreases resolved@.len() - t,
            {
                delivered.push(Delivery { entry: index, ticket: resolved[t], is_current: k == 0 });
                assert(resolved@.take(t as int + 1) =~= resolved@.take(t as int).push(
                    resolved@[t as int],
                ));
                t = t + 1;
            }
            proof {
                assert(resolved@.take(resolved@.len() as int) =~= resolved@);
                assert(steps.take(k as int + 1).drop_last() =~= steps.take(k as int));
                assert(resolved@.map_values(
                    |ticket: u64| Delivery { entry: index, ticket, is_current: k == 0 },
                ) =~= resolved@.map_values(
                    |ticket: u64|
                        Delivery {
                            entry: steps.take(k as int + 1).last() as usize,
                            ticket,
                            is_current: steps.take(k as int + 1).len() == 1,
                        },
                ));
            }
            k = k + 1;
        }
        assert(steps.take(path@.len() as int) =~= steps);
        delivered
    }
}

impl<'a> View for Builder<'a> {
    type V = TableView;

    open spec fn view(&self) -> TableView {
        self.table@
    }
}

impl<'a> Builder<'a> {
    /// The entries pushed so far.
    pub open spec fn entries(&self) -> Seq<Item> {
        self@.entries
    }

    /// The elements that are being built, the outermost first.
    pub open spec fn stack(&self) -> Seq<usize> {
        self@.stack
    }

    pub open spec fn wf(&self) -> bool {
        self@.wf()
    }

    /// A builder for the same table, for a shorter time.
    pub fn downgrade_lifetime(&mut self) -> (builder: Builder<'_>)
        ensures
            builder@ == old(self)@,
            *final(self).table == *final(builder.table),
            *final(final(self).table) == *final(old(self).table),
    {
        Builder { table: &mut *self.table }
    }

    /// Opens an element: appends its entry, with the element that is being
    /// built as its parent, and makes it the element that is being built.
    /// Returns the index of the entry.
    pub fn push(&mut self, event_emitter: EventDispatcher) -> (index: usize)
        requires
            old(self).wf(),
        ensures
            index == old(self).entries().len(),
            final(self)@ == old(self)@.push(event_emitter),
            final(self).wf(),
            *final(final(self).table) == *final(old(self).table),
    {
        let parent: Option<usize> = if self.table.builder_stack.len() == 0 {
            None
        } else {
            Some(self.table.builder_stack[self.table.builder_stack.len() - 1])
        };
        self.table.emitters.push(Item { event_emitter, interact_region: None, parent });
        let index: usize = self.table.emitters.len() - 1;
        self.table.builder_stack.push(index);
        proof {
            lemma_step_keeps_nesting(old(self)@, BuildStep::Push(event_emitter));
        }
        index
    }

    /// Sets where the element of entry `index` reacts to the pointer, or,
    /// with `None`, that it reacts nowhere.
    pub fn set_interact_region_for(&mut self, index: usize, r: Option<Region>)
        requires
            index < old(self).entries().len(),
        ensures
            final(self)@ == old(self)@.set_region(index, r),
            old(self).wf() ==> final(self).wf(),
            *final(final(self).table) == *final(old(self).table),
    {
        self.table.emitters[index].interact_region = r;
        proof {
            if old(self).wf() {
                lemma_step_keeps_nesting(old(self)@, BuildStep::SetRegion(index, r));
            }
        }
    }

    /// Closes the element that is being built; its parent is being built
    /// again.
    pub fn finish(&mut self)
        requires
            old(self).stack().len() > 0,
        ensures
            final(self)@ == old(self)@.finish(),
            old(self).wf() ==> final(self).wf(),
            *final(final(self).table) == *final(old(self).table),
    {
        let _ = self.table.builder_stack.pop();
        proof {
            if old(self).wf() {
                lemma_step_keeps_nesting(old(self)@, BuildStep::Finish);
            }
        }
    }
}

/// A build that follows the nesting of a tree starts and ends with no
/// element open. Every step of it is one that the builder takes, and what
/// it leaves is a table in which parents come before their children.
pub proof fn lemma_nested_build_closes(steps: Seq<BuildStep>)
    requires
        nested(steps),
    ensures
        TableView::empty().stack.len() == 0,
        TableView::empty().replay(steps).stack.len() == 0,
        TableView::empty().replay(steps).wf(),
        TableView::empty().replay(steps).entries.len() == pushes(steps),
        forall|k: int|
            0 <= k < steps.len() ==> TableView::empty().replay(#[trigger] steps.take(k)).admits(
                steps[k],
            ),
{
    assert forall|k: int| 0 <= k < steps.len() implies TableView::empty().replay(
        #[trigger] steps.take(k),
    ).admits(steps[k]) by {
        lemma_replay_prefix(steps, k);
        lemma_pushes_grow(steps, k + 1);
        assert(steps.take(k + 1).drop_last() =~= steps.take(k));
        assert(steps.take(k + 1).last() == steps[k]);
        assert(depth(steps.take(k + 1)) >= 0);
    }
    lemma_replay_prefix(steps, steps.len() as int);
    assert(steps.take(steps.len() as int) =~= steps);
}

proof fn lemma_replay_prefix(steps: Seq<BuildStep>, k: int)
    requires
        nested(steps),
        0 <= k <= steps.len(),
    ensures
        TableView::empty().replay(steps.take(k)).stack.len() == depth(steps.take(k)),
        TableView::empty().replay(steps.take(k)).entries.len() == pushes(steps.take(k)),
        TableView::empty().replay(steps.take(k)).wf(),
    decreases k,
{
    if k > 0 {
        lemma_replay_prefix(steps, k - 1);
        assert(steps.take(k).drop_last() =~= steps.take(k - 1));
        assert(steps.take(k).last() == steps[k - 1]);
        assert(depth(steps.take(k)) >= 0);
        assert(depth(steps.take(k - 1)) >= 0);
        lemma_pushes_grow(steps, k);
        lemma_step_keeps_nesting(TableView::empty().replay(steps.take(k - 1)), steps[k - 1]);
    }
}

proof fn lemma_pushes_grow(steps: Seq<BuildStep>, k: int)
    requires
        0 <= k <= steps.len(),
    ensures
        pushes(steps.take(k)) <= pushes(steps),
    decreases steps.len() - k,
{
    if k < steps.len() {
        lemma_pushes_grow(steps, k + 1);
        assert(steps.take(k + 1).drop_last() =~= steps.take(k));
    } else {
        assert(steps.take(k) =~= steps);
    }
}

/// A step that the builder takes leaves parents before their children and
/// the stack a path from a root.
pub proof fn lemma_step_keeps_nesting(table: TableView, step: BuildStep)
    requires
        table.wf(),
        table.admits(step),
    ensures
        table.apply(step).wf(),
{
    let next = table.apply(step);
    match step {
        BuildStep::Push(_) => {
            assert forall|k: int| 0 <= k < next.stack.len() implies path_link(next, k) by {
                if k < table.stack.len() {
                    assert(path_link(table, k));
                }
            }
        },
        BuildStep::SetRegion(index, _) => {
            assert forall|k: int| 0 <= k < next.stack.len() implies path_link(next, k) by {
                assert(path_link(table, k));
            }
        },
        BuildStep::Finish => {
            assert forall|k: int| 0 <= k < next.stack.len() implies path_link(next, k) by {
                assert(path_link(table, k));
            }
        },
    }
}

/// The path of a pointer event is exactly the entry that is hit, followed
/// by its ancestors up to a root, in that order: each entry on the path is
/// followed by its parent, the last has no parent, and none comes twice.
pub proof fn lemma_bubble_path(entries: Seq<Item>, point: Point)
    requires
        parents_first(entries),
    ensures
        topmost_hit(entries, point) is None <==> bubble_path(entries, point).len() == 0,
        topmost_hit(entries, point) matches Some(hit) ==> {
            let path = bubble_path(entries, point);
            &&& path[0] == hit
            &&& forall|k: int| 0 <= k < path.len() ==> 0 <= #[trigger] path[k] < entries.len()
            &&& forall|k: int|
                0 <= k < path.len() - 1 ==> entries[#[trigger] path[k]].parent == Some(
                    path[k + 1] as usize,
                )
            &&& entries[path.last()].parent is None
            &&& forall|k: int, l: int| 0 <= k < l < path.len() ==> path[k] > path[l]
        },
{
    lemma_hit_is_topmost(entries, point);
    match topmost_hit(entries, point) {
        Some(hit) => {
            lemma_ancestry(entries, hit);
        },
        None => {},
    }
}

/// A pointer event that falls on no entry is delivered to no one and
/// leaves every scope as it was.
pub proof fn lemma_miss_delivers_nothing(
    scopes: Seq<ScopeState>,
    entries: Seq<Item>,
    point: Point,
    kind: EventKind,
)
    requires
        forall|i: int| !is_hit(entries, point, i),
    ensures
        bubble_path(entries, point) == Seq::<int>::empty(),
        deliveries_along(scopes, entries, bubble_path(entries, point), kind) == Seq::<
            Delivery,
        >::empty(),
        scopes_after_path(scopes, entries, bubble_path(entries, point), kind) == scopes,
{
    lemma_hit_is_topmost(entries, point);
}

/// Every entry on the path of a pointer event exists.
pub proof fn lemma_path_in_range(entries: Seq<Item>, point: Point)
    ensures
        forall|j: int|
            0 <= j < bubble_path(entries, point).len() ==> 0 <= #[trigger] bubble_path(
                entries,
                point,
            )[j] < entries.len(),
{
    match topmost_hit(entries, point) {
        Some(i) => {
            lemma_ancestry_in_range(entries, i);
        },
        None => {},
    }
}

proof fn lemma_ancestry_in_range(entries: Seq<Item>, start: int)
    ensures
        forall|k: int|
            0 <= k < ancestry(entries, start).len() ==> 0 <= #[trigger] ancestry(entries, start)[k]
                < entries.len(),
    decreases start,
{
    if 0 <= start < entries.len() {
        match entries[start].parent {
            Some(p) => {
                if p < start {
                    let rest = ancestry(entries, p as int);
                    lemma_ancestry_in_range(entries, p as int);
                    assert forall|k: int| 0 <= k < ancestry(entries, start).len() implies 0
                        <= #[trigger] ancestry(entries, start)[k] < entries.len() by {
                        if k > 0 {
                            assert(ancestry(entries, start)[k] == rest[k - 1]);
                        }
                    }
                }
            },
            None => {},
        }
    }
}

/// Where regions overlap, the entry that was pushed last wins: the entry
/// that is hit holds the point and no later entry does. Where no region
/// holds the point, no entry is hit.
pub proof fn lemma_hit_is_topmost(entries: Seq<Item>, point: Point)
    ensures
        topmost_hit(entries, point) matches Some(i) ==> is_hit(entries, point, i) && forall|j: int|
            i < j < entries.len() ==> !is_hit(entries, point, j),
        topmost_hit(entries, point) is None <==> forall|j: int| !is_hit(entries, point, j),
    decreases entries.len(),
{
    if entries.len() > 0 {
        let last = entries.len() - 1;
        if !is_hit(entries, point, last) {
            lemma_hit_is_topmost(entries.drop_last(), point);
            assert forall|j: int| 0 <= j < last implies is_hit(entries, point, j) == is_hit(
                entries.drop_last(),
                point,
                j,
            ) by {}
            if topmost_hit(entries, point) is None {
                assert forall|j: int| !is_hit(entries, point, j) by {
                    if 0 <= j < last {
                        assert(!is_hit(entries.drop_last(), point, j));
                    }
                }
            } else {
                let i = topmost_hit(entries, point)->0;
                assert(is_hit(entries.drop_last(), point, i));
                assert(is_hit(entries, point, i));
                assert forall|j: int| i < j < entries.len() implies !is_hit(entries, point, j) by {
                    if j < last {
                        assert(!is_hit(entries.drop_last(), point, j));
                    }
                }
            }
        }
    }
}

/// The path from an entry to its root starts at the entry, goes from each
/// entry to its parent, ends at an entry without parent, and goes strictly
/// downwards in the table, so that it passes no entry twice.
pub proof fn lemma_ancestry(entries: Seq<Item>, start: int)
    requires
        0 <= start < entries.len(),
        parents_first(entries),
    ensures
        ancestry(entries, start).len() >= 1,
        ancestry(entries, start)[0] == start,
        forall|k: int|
            0 <= k < ancestry(entries, start).len() ==> 0 <= #[trigger] ancestry(entries, start)[k]
                <= start,
        forall|k: int|
            0 <= k < ancestry(entries, start).len() - 1 ==> entries[#[trigger] ancestry(
                entries,
                start,
            )[k]].parent == Some(ancestry(entries, start)[k + 1] as usize),
        entries[ancestry(entries, start).last()].parent is None,
        forall|k: int, l: int|
            0 <= k < l < ancestry(entries, start).len() ==> ancestry(entries, start)[k] > ancestry(
                entries,
                start,
            )[l],
    decreases start,
{
    let path = ancestry(entries, start);
    match entries[start].parent {
        Some(p) => {
            let rest = ancestry(entries, p as int);
            lemma_ancestry(entries, p as int);
            assert(path =~= seq![start] + rest);
            assert forall|k: int| 0 <= k < path.len() - 1 implies entries[#[trigger] path[k]].parent
                == Some(path[k + 1] as usize) by {
                if k > 0 {
                    assert(path[k] == rest[k - 1]);
                    assert(path[k + 1] == rest[k]);
                }
            }
            assert forall|k: int, l: int| 0 <= k < l < path.len() implies path[k] > path[l] by {
                assert(path[l] == rest[l - 1]);
                if k > 0 {
                    assert(path[k] == rest[k - 1]);
                }
            }
            assert(path.last() == rest.last());
        },
        None => {
            assert(path =~= seq![start]);
        },
    }
}

} // verus!
