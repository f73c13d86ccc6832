//! What an element is to the tree that holds it.

use vstd::prelude::*;
use std::time::Duration;
use crate::primitive::Region;

verus! {

/// Why a pass over the tree stopped.
#[derive(Debug, PartialEq, Eq)]
pub enum Error {
    /// The regions ran out before every child had one.
    NotEnoughRegions,
    /// A shared node was in use elsewhere when the pass came to it.
    Borrowed,
    /// An element could not draw itself. The text is the element's own.
    Element(String),
}

/// Regions to be handed out, one per child, first to last.
pub struct RegionIter {
    regions: Vec<Region>,
    taken: usize,
}

impl View for RegionIter {
    type V = Seq<Region>;

    /// The regions that have not been handed out.
    closed spec fn view(&self) -> Seq<Region> {
        self.regions@.skip(self.taken as int)
    }
}

impl RegionIter {
    #[verifier::type_invariant]
    spec fn inv(&self) -> bool {
        self.taken <= self.regions@.len()
    }

    pub fn new(regions: Vec<Region>) -> (iter: Self)
        ensures
            iter@ == regions@,
    {
        let iter = RegionIter { regions, taken: 0 };
        assert(iter@ =~= regions@);
        iter
    }

    /// How many regions are left.
    pub fn remaining(&self) -> (n: usize)
        ensures
            n == self@.len(),
    {
        proof {
            use_type_invariant(self);
        }
        self.regions.len() - self.taken
    }

    /// Hands out the next region, if one is left.
    pub fn next(&mut self) -> (region: Option<Region>)
        ensures
            old(self)@.len() > 0 ==> {
                &&& region == Some(old(self)@[0])
                &&& final(self)@ == old(self)@.skip(1)
            },
            old(self)@.len() == 0 ==> {
                &&& region is None
                &&& final(self)@ == old(self)@
            },
    {
        proof {
            use_type_invariant(&*self);
        }
        if self.taken < self.regions.len() {
            let region = self.regions[self.taken];
            self.taken = self.taken + 1;
            assert(self@ =~= old(self)@.skip(1));
            Some(region)
        } else {
            None
        }
    }
}

/// What an element is told when it draws, and what it tells the frame.
pub struct RenderContent {
    /// The entry of the element in the hit-test table of this frame.
    pub elem_table_index: usize,
    /// The time since the frame before.
    pub delta_time: Duration,
    /// The region that the parent gave to the element, if it gave one.
    pub drawing_region: Option<Region>,
    /// How many children wait for a region; `usize::MAX` stands for that
    /// many or more.
    pub children: usize,
    /// Where the element reacts to the pointer in this frame.
    pub interact_region: Option<Region>,
    /// The regions that the element gives to its children, first to last.
    pub child_regions: Vec<Region>,
}

impl RenderContent {
    /// The content for an element that has not drawn yet: it reacts
    /// nowhere and has placed no child.
    pub fn new(
        elem_table_index: usize,
        delta_time: Duration,
        drawing_region: Option<Region>,
        children: usize,
    ) -> (content: Self)
        ensures
            content.elem_table_index == elem_table_index,
            content.delta_time == delta_time,
            content.drawing_region == drawing_region,
            content.children == children,
            content.interact_region is None,
            content.child_regions@ == Seq::<Region>::empty(),
    {
        RenderContent {
            elem_table_index,
            delta_time,
            drawing_region,
            children,
            interact_region: None,
            child_regions: Vec::new(),
        }
    }

    pub fn delta_time(&self) -> (interval: Duration)
        ensures
            interval == self.delta_time,
    {
        self.delta_time
    }

    /// The element reacts to the pointer in `region`.
    pub fn set_interact_region(&mut self, region: Region)
        ensures
            *final(self) == (RenderContent { interact_region: Some(region), ..*old(self) }),
    {
        self.interact_region = Some(region);
    }

    /// The element reacts to the pointer nowhere.
    pub fn clear_interact_region(&mut self)
        ensures
            *final(self) == (RenderContent { interact_region: None, ..*old(self) }),
    {
        self.interact_region = None;
    }

    /// The element gives `regions` to its children, first to last.
    pub fn place_children(&mut self, regions: Vec<Region>)
        ensures
            *final(self) == (RenderContent { child_regions: regions, ..*old(self) }),
    {
        self.child_regions = regions;
    }
}

/// The behaviour of one kind of element.
pub trait Element {
    /// Draws the element and records in `content` what the frame is to
    /// know of it. An error ends the render pass.
    fn render(&mut self, content: &mut RenderContent) -> Result<(), Error>;
}

} // verus!
