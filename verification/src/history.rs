use vstd::prelude::*;
use crate::geometry::BlockPos;

verus! {

/// One step of edit history: the clipboards that restore the changed
/// regions, the position they are pasted at, and the plot the edit was made in.
pub struct HistoryEntry<C> {
    pub clipboards: Vec<C>,
    pub pos: BlockPos,
    pub plot_x: i32,
    pub plot_z: i32,
}

/// Why an undo or redo does nothing.
#[derive(Clone, Copy, Debug, PartialEq, Eq, Structural)]
pub enum HistoryError {
    /// The history is empty.
    NothingLeft,
    /// The latest entry belongs to another plot; it is dropped.
    OtherPlot,
}

/// Takes the latest entry of an undo or redo history for use in the plot at
/// `(plot_x, plot_z)`. An empty history is left as it is. Otherwise the latest
/// entry is removed; it is handed back when it was made in this plot and
/// dropped when it was made in another.
pub fn take_entry_for_plot<C>(history: &mut Vec<HistoryEntry<C>>, plot_x: i32, plot_z: i32) -> (r: Result<HistoryEntry<C>, HistoryError>)
    ensures
        old(history)@.len() == 0 ==> r == Err::<HistoryEntry<C>, HistoryError>(HistoryError::NothingLeft) && final(history)@ == old(history)@,
        old(history)@.len() > 0 ==> {
            let e = old(history)@.last();
            &&& final(history)@ == old(history)@.drop_last()
            &&& (e.plot_x != plot_x || e.plot_z != plot_z) ==> r == Err::<HistoryEntry<C>, HistoryError>(HistoryError::OtherPlot)
            &&& (e.plot_x == plot_x && e.plot_z == plot_z) ==> r == Ok::<HistoryEntry<C>, HistoryError>(e)
        },
{
    match history.pop() {
        None => Err(HistoryError::NothingLeft),
        Some(entry) => {
            if entry.plot_x != plot_x || entry.plot_z != plot_z {
                Err(HistoryError::OtherPlot)
            } else {
                Ok(entry)
            }
        },
    }
}

} // verus!
