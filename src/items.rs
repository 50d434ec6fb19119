use vstd::prelude::*;
use crate::diff::{Delta, DiffLine, Hunk};

verus! {

/// The repository object that a displayed line stands for.
#[derive(Clone, Debug)]
pub enum Actionable {
    Ref(Vec<u8>),
    Untracked(Vec<u8>),
    Delta(Delta),
    Hunk(Hunk),
    DiffLine(DiffLine),
}

/// One displayed line. `section` is the index of the section that owns it;
/// a header line stays visible when its section is collapsed.
#[derive(Clone, Debug)]
pub struct Item {
    pub display: Vec<u8>,
    pub act: Option<Actionable>,
    pub section: usize,
    pub header: bool,
}

/// The payload of an item, if it carries one.
pub fn actionable_of(item: &Item) -> (r: Option<&Actionable>)
    ensures
        r == match item.act {
            Some(a) => Some(&a),
            None => None::<&Actionable>,
        },
{
    match &item.act {
        Some(a) => Some(a),
        None => None,
    }
}

} // verus!
