use ggez_goodies::bitmap_font::TextMap;

#[test]
fn text_map_from_grid() {
    let m = TextMap::from_grid("abcde", 2, 3);
    assert_eq!(m.width(), 2);
    assert_eq!(m.height(), 3);
    assert_eq!(m.cell('a'), Some((0, 0)));
    assert_eq!(m.cell('b'), Some((1, 0)));
    assert_eq!(m.cell('c'), Some((0, 1)));
    assert_eq!(m.cell('d'), Some((1, 1)));
    assert_eq!(m.cell('e'), Some((0, 2)));
    assert_eq!(m.cell('f'), None);
}

#[test]
fn text_map_last_occurrence_wins() {
    let m = TextMap::from_grid("xyx", 4, 1);
    assert_eq!(m.cell('x'), Some((2, 0)));
    assert_eq!(m.cell('y'), Some((1, 0)));
}

#[test]
fn text_map_of_nothing() {
    let m = TextMap::from_grid("", 0, 0);
    assert_eq!(m.cell('a'), None);
    let m = TextMap::from_grid("é", 1, 1);
    assert_eq!(m.cell('é'), Some((0, 0)));
}
