//! One window, frame by frame.
//!
//! A frame is a render pass followed by the reports of the window that
//! arrive until the next one. The render pass rebuilds the hit-test table
//! from empty. Each report goes through the pointer normaliser; what it
//! makes of the report is told to the tree, and sent to the element under
//! the pointer and to its ancestors.

use vstd::prelude::*;
use std::time::Duration;
use crate::application::elem_table::{
    bubble_path,
    deliveries_along,
    scopes_after_path,
    Delivery,
    ElemTable,
    Item,
    TableView,
};
use crate::application::event_comp::{
    is_pointer_input,
    lemma_pointer_input_is_classified,
    normalized,
    sent_kind,
    GlobalEventMgr,
    NewPointerEvent,
    PointerState,
    WindowEvent,
};
use crate::dom::children::RenderMultiple;
use crate::dom::node_view::{all_entries, all_told, any_entered, laid_out, rendered, NodeView};
use crate::element::{Error, RegionIter};
use crate::event::hub::{
    emit_receivers,
    scopes_after_emit,
    EventDispatcher,
    EventHub,
    ScopeState,
};
use crate::event::standard::Event;
use crate::primitive::{Point, Region};

verus! {

/// What one report of the window led to.
pub struct Dispatched {
    /// What the report changed about the pointer; `None` for a report
    /// that is no pointer input.
    pub pointer: Option<NewPointerEvent>,
    /// The subscribers of the window scope that were resolved.
    pub window: Vec<u64>,
    /// The subscribers of element scopes that were resolved, in the order
    /// in which they were.
    pub elements: Vec<Delivery>,
    /// Whether the pointer is on a node of the tree.
    pub entered: bool,
}

/// The tree of one window with what the window keeps between frames.
pub struct Application<Root> {
    root: Root,
    elem_table: ElemTable,
    hub: EventHub,
    global_ed: EventDispatcher,
    event_mgr: GlobalEventMgr,
}

impl<Root: RenderMultiple> Application<Root> {
    /// The nodes at the top of the tree.
    pub closed spec fn nodes(&self) -> Seq<NodeView> {
        self.root.nodes()
    }

    /// Whether every node of the tree is stored exclusively.
    pub closed spec fn exclusive(&self) -> bool {
        self.root.exclusive()
    }

    /// The hit-test table of the last render pass.
    pub closed spec fn table(&self) -> TableView {
        self.elem_table@
    }

    /// The scopes of the bus.
    pub closed spec fn scopes(&self) -> Seq<ScopeState> {
        self.hub@
    }

    /// The scope of the window.
    pub closed spec fn window_scope(&self) -> EventDispatcher {
        self.global_ed
    }

    /// Where the pointer was last seen.
    pub closed spec fn pointer_position(&self) -> Option<Point> {
        self.event_mgr.last_cursor_position()
    }

    /// Whether the pointer is pressed.
    pub closed spec fn pointer_state(&self) -> PointerState {
        self.event_mgr.pointer_state()
    }

    /// A window that shows `root`, has not rendered yet, and has not seen
    /// the pointer. The scopes of the elements are in `hub`; that of the
    /// window is `global_ed`.
    pub fn new(root: Root, hub: EventHub, global_ed: EventDispatcher) -> (app: Self)
        ensures
            app.nodes() == root.nodes(),
            app.exclusive() == root.exclusive(),
            app.table() == TableView::empty(),
            app.scopes() == hub@,
            app.window_scope() == global_ed,
            app.pointer_position() is None,
            app.pointer_state() == PointerState::OutOfViewport,
    {
        Application {
            root,
            elem_table: ElemTable::new(),
            hub,
            global_ed,
            event_mgr: GlobalEventMgr::new(),
        }
    }

    /// The bus, to subscribe and to open scopes.
    pub fn hub(&mut self) -> (hub: &mut EventHub)
        ensures
            hub@ == old(self).scopes(),
            final(self).scopes() == final(hub)@,
            final(self).nodes() == old(self).nodes(),
            final(self).exclusive() == old(self).exclusive(),
            final(self).table() == old(self).table(),
            final(self).window_scope() == old(self).window_scope(),
            final(self).pointer_position() == old(self).pointer_position(),
            final(self).pointer_state() == old(self).pointer_state(),
    {
        &mut self.hub
    }

    /// The hit-test table of the last render pass.
    pub fn elem_table(&self) -> (table: &ElemTable)
        ensures
            table@ == self.table(),
    {
        &self.elem_table
    }

    /// The tree.
    pub fn root(&self) -> (root: &Root)
        ensures
            root.nodes() == self.nodes(),
            root.exclusive() == self.exclusive(),
    {
        &self.root
    }

    /// Hands `regions` to the nodes at the top of the tree, the first
    /// region to the first node.
    pub fn layout(&mut self, regions: Vec<Region>) -> (r: Result<(), Error>)
        ensures
            final(self).table() == old(self).table(),
            final(self).scopes() == old(self).scopes(),
            final(self).window_scope() == old(self).window_scope(),
            final(self).pointer_position() == old(self).pointer_position(),
            final(self).pointer_state() == old(self).pointer_state(),
            final(self).exclusive() == old(self).exclusive(),
            final(self).nodes().len() == old(self).nodes().len(),
            r is Ok ==> regions@.len() >= old(self).nodes().len(),
            old(self).exclusive() ==> {
                &&& r is Ok <==> regions@.len() >= old(self).nodes().len()
                &&& r matches Err(e) ==> e is NotEnoughRegions
                &&& final(self).nodes() == laid_out(
                    old(self).nodes(),
                    regions@,
                )
            },
    {
        let mut iter = RegionIter::new(regions);
        self.root.layout(&mut iter)
    }

    /// One render pass: the hit-test table is emptied and the tree is
    /// rendered into it. Whether the pass succeeds or not, no element is
    /// left open in the table, and parents come before their children. A
    /// pass that succeeds leaves in the table one entry for each node,
    /// parents first, and nothing else.
    pub fn redraw(&mut self, interval: Duration) -> (r: Result<(), Error>)
        ensures
            final(self).table().wf(),
            final(self).table().stack.len() == 0,
            final(self).scopes() == old(self).scopes(),
            final(self).window_scope() == old(self).window_scope(),
            final(self).pointer_position() == old(self).pointer_position(),
            final(self).pointer_state() == old(self).pointer_state(),
            final(self).exclusive() == old(self).exclusive(),
            final(self).nodes().len() == old(self).nodes().len(),
            old(self).nodes().len() == 0 ==> r is Ok,
            r is Ok ==> final(self).table().entries.len() >= old(self).nodes().len(),
            old(self).exclusive() ==> {
                &&& rendered(old(self).nodes(), final(self).nodes())
                &&& r is Ok ==> final(self).table().entries == all_entries(
                    final(self).nodes(),
                    None,
                    0,
                )
            },
    {
        let mut builder = self.elem_table.builder();
        let r = self.root.render(&mut builder, interval);
        proof {
            assert(Seq::<Item>::empty() + all_entries(
                self.root.nodes(),
                None,
                0,
            ) =~= all_entries(self.root.nodes(), None, 0));
        }
        r
    }

    /// Takes one report of the window. Pointer input moves the pointer
    /// state; the window scope is sent the pointer event that the report
    /// comes to; every node is told where the pointer is; and, where the
    /// pointer is somewhere, the element under it and its ancestors are
    /// sent the pointer event. Any other report goes to the window scope
    /// as it is and changes nothing else.
    pub fn emit_event(&mut self, event: WindowEvent) -> (out: Dispatched)
        ensures
            out.pointer == normalized(
                event,
                old(self).pointer_state(),
                old(self).pointer_position(),
            ),
            final(self).table() == old(self).table(),
            final(self).window_scope() == old(self).window_scope(),
            final(self).exclusive() == old(self).exclusive(),
            final(self).nodes().len() == old(self).nodes().len(),
            out.window@ == emit_receivers(
                old(self).scopes(),
                old(self).window_scope().scope as int,
                sent_kind(event, old(self).pointer_state(), old(self).pointer_position()),
            ),
            out.pointer is None ==> {
                &&& final(self).pointer_state() == old(self).pointer_state()
                &&& final(self).pointer_position() == old(self).pointer_position()
                &&& final(self).nodes() == old(self).nodes()
                &&& out.elements@ == Seq::<Delivery>::empty()
                &&& !out.entered
                &&& final(self).scopes() == scopes_after_emit(
                    old(self).scopes(),
                    old(self).window_scope().scope as int,
                    sent_kind(event, old(self).pointer_state(), old(self).pointer_position()),
                )
            },
            out.pointer matches Some(npe) ==> {
                let kind = sent_kind(
                    event,
                    old(self).pointer_state(),
                    old(self).pointer_position(),
                );
                let told = scopes_after_emit(
                    old(self).scopes(),
                    old(self).window_scope().scope as int,
                    kind,
                );
                let path = match npe.position {
                    Some(point) => bubble_path(old(self).table().entries, point),
                    None => Seq::empty(),
                };
                &&& final(self).pointer_state() == npe.pointer_state
                &&& final(self).pointer_position() == npe.position
                &&& out.elements@ == deliveries_along(told, old(self).table().entries, path, kind)
                &&& final(self).scopes() == scopes_after_path(
                    told,
                    old(self).table().entries,
                    path,
                    kind,
                )
                &&& old(self).exclusive() ==> {
                    &&& out.entered == any_entered(old(self).nodes(), npe.position)
                    &&& final(self).nodes() == all_told(old(self).nodes(), npe.position)
                }
            },
    {
        proof {
            if is_pointer_input(event) {
                lemma_pointer_input_is_classified(
                    event,
                    self.event_mgr.pointer_state(),
                    self.event_mgr.last_cursor_position(),
                );
            }
        }
        let (pointer, window) = self.event_mgr.emit_event(event, &mut self.hub, &self.global_ed);
        match pointer {
            None => Dispatched { pointer, window, elements: Vec::new(), entered: false },
            Some(npe) => {
                let entered = self.root.emit_event(&npe);
                let elements = match (npe.position, npe.physical()) {
                    (Some(point), Some(sent)) => self.elem_table.emit(
                        &mut self.hub,
                        point,
                        sent.kind(),
                    ),
                    _ => Vec::new(),
                };
                Dispatched { pointer, window, elements, entered }
            },
        }
    }
}

} // verus!
