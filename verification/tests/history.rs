use worldedit::geometry::BlockPos;
use worldedit::history::{take_entry_for_plot, HistoryEntry, HistoryError};

fn entry(tag: u8, plot_x: i32) -> HistoryEntry<u8> {
    HistoryEntry { clipboards: vec![tag], pos: BlockPos::new(0, 0, 0), plot_x, plot_z: 0 }
}

#[test]
fn undo_takes_latest_entry_of_this_plot() {
    let mut h = vec![entry(1, 0), entry(2, 0)];
    let e = take_entry_for_plot(&mut h, 0, 0).ok().expect("an entry");
    assert_eq!(e.clipboards, vec![2]);
    assert_eq!(h.len(), 1);
}

#[test]
fn undo_in_other_plot_drops_entry() {
    let mut h = vec![entry(1, 0), entry(2, 5)];
    assert_eq!(take_entry_for_plot(&mut h, 0, 0).err(), Some(HistoryError::OtherPlot));
    assert_eq!(h.len(), 1);
    assert_eq!(h[0].clipboards, vec![1]);
}

#[test]
fn empty_history() {
    let mut h: Vec<HistoryEntry<u8>> = vec![];
    assert_eq!(take_entry_for_plot(&mut h, 0, 0).err(), Some(HistoryError::NothingLeft));
}
