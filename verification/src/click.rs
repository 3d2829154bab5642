//! What a line of the sidebar leads to when it is clicked.
use vstd::prelude::*;

verus! {

/// The target of a sidebar line.
#[derive(Debug, PartialEq)]
pub enum ClickTarget {
    Tab(usize),
    Pane(u32),
    Group(String),
    Empty,
}

/// A clickable line of the sidebar.
#[derive(Debug)]
pub struct ClickRegion {
    pub line: usize,
    pub target: ClickTarget,
}

impl Clone for ClickTarget {
    fn clone(&self) -> (r: Self)
        ensures
            r == *self,
    {
        match self {
            ClickTarget::Tab(p) => ClickTarget::Tab(*p),
            ClickTarget::Pane(id) => ClickTarget::Pane(*id),
            ClickTarget::Group(name) => ClickTarget::Group(name.clone()),
            ClickTarget::Empty => ClickTarget::Empty,
        }
    }
}

impl Clone for ClickRegion {
    fn clone(&self) -> (r: Self)
        ensures
            r == *self,
    {
        ClickRegion { line: self.line, target: self.target.clone() }
    }
}

} // verus!
