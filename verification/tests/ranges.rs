use linepager::line_range::{extendl, extendr, inverted, limit, shiftl, shiftr, LinesRange, Sign};

#[test]
fn constructors_set_the_anchor() {
    let p = LinesRange::pos(3..7);
    assert_eq!(p.sign, Sign::Pos);
    assert_eq!(p.range, 3..7);
    let n = LinesRange::neg(0..4);
    assert_eq!(n.sign, Sign::Neg);
    assert_eq!(n.range, 0..4);
    assert_ne!(LinesRange::pos(0..4), LinesRange::neg(0..4));
}

#[test]
fn raw_shifts_keep_the_width() {
    assert_eq!(shiftr(&(2..5), 3), 5..8);
    assert_eq!(shiftl(&(5..8), 3), 2..5);
    assert_eq!(shiftl(&(2..5), 3), 0..3);
    assert_eq!(shiftl(&(0..5), 1), 0..5);
}

#[test]
fn raw_shift_stops_at_the_largest_ordinal() {
    let top = usize::MAX;
    assert_eq!(shiftr(&(top - 5..top - 2), 10), top - 3..top);
    assert_eq!(shiftr(&(0..top), 1), 0..top);
}

#[test]
fn raw_extends_move_one_bound() {
    assert_eq!(extendr(&(2..5), 3), 2..8);
    assert_eq!(extendl(&(2..5), 1), 1..5);
    assert_eq!(extendl(&(2..5), 9), 0..5);
    assert_eq!(extendr(&(2..5), usize::MAX), 2..usize::MAX);
}

#[test]
fn inverted_counts_from_the_other_end() {
    assert_eq!(inverted(&(0..2), 10), 8..10);
    assert_eq!(inverted(&(3..10), 10), 0..7);
    assert_eq!(inverted(&(4..12), 10), 0..6);
    assert_eq!(inverted(&(11..12), 10), 0..0);
}

#[test]
fn limit_cuts_to_what_exists() {
    assert_eq!(limit(&(5..100), 10), 5..10);
    assert_eq!(limit(&(0..3), 10), 0..3);
    assert_eq!(limit(&(50..100), 10), 10..10);
    assert_eq!(limit(&(0..5), 0), 0..0);
}

#[test]
fn shift_of_a_forward_window() {
    let r = LinesRange::pos(10..20);
    assert_eq!(r.shiftl(4), LinesRange::pos(6..16));
    assert_eq!(r.shiftr(4), LinesRange::pos(14..24));
    assert_eq!(r.shiftl(15), LinesRange::pos(0..10));
}

#[test]
fn shift_of_a_backward_window_moves_the_bounds_the_other_way() {
    let r = LinesRange::neg(10..20);
    assert_eq!(r.shiftl(4), LinesRange::neg(14..24));
    assert_eq!(r.shiftr(4), LinesRange::neg(6..16));
    assert_eq!(r.shiftr(15), LinesRange::neg(0..10));
}

#[test]
fn extend_of_a_forward_window() {
    let r = LinesRange::pos(10..20);
    assert_eq!(r.extendl(3), LinesRange::pos(7..20));
    assert_eq!(r.extendr(3), LinesRange::pos(10..23));
    assert_eq!(r.extendl(30), LinesRange::pos(0..20));
}

#[test]
fn extend_of_a_backward_window_moves_the_other_bound() {
    let r = LinesRange::neg(10..20);
    assert_eq!(r.extendl(3), LinesRange::neg(10..23));
    assert_eq!(r.extendr(3), LinesRange::neg(7..20));
    assert_eq!(r.extendr(30), LinesRange::neg(0..20));
}

#[test]
fn shift_there_and_back_gives_the_window_back() {
    let r = LinesRange::pos(10..20);
    assert_eq!(r.shiftl(7).shiftr(7), r);
    assert_eq!(r.shiftr(7).shiftl(7), r);
    let n = LinesRange::neg(10..20);
    assert_eq!(n.shiftl(7).shiftr(7), n);
    assert_eq!(n.shiftr(7).shiftl(7), n);
}

#[test]
fn a_shift_that_was_cut_short_does_not_come_back() {
    let r = LinesRange::pos(3..8);
    assert_eq!(r.shiftl(5), LinesRange::pos(0..5));
    assert_eq!(r.shiftl(5).shiftr(5), LinesRange::pos(5..10));
}

#[test]
fn clone_is_equal() {
    let r = LinesRange::neg(1..9);
    assert_eq!(r.clone(), r);
}
