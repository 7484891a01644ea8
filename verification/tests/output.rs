use random_lattice_models::graph::SquareLattice;
use random_lattice_models::output::{ising_pixels, ising_text, potts_text, should_upscale};

#[test]
fn ising_text_shows_rows_in_order() {
    let graph = SquareLattice::new(3, 2, false);
    let text: String = ising_text(&graph, &[true, false, true, false, false, true]).into_iter().collect();
    assert_eq!(text, "#.#\n..#\n");
}

#[test]
fn potts_text_uses_letters_and_question_marks() {
    let graph = SquareLattice::new(3, 3, false);
    let text: String = potts_text(&graph, &[0, 1, 2, 3, 4, 5, 6, 7, 8]).into_iter().collect();
    assert_eq!(text, "ABC\nDEF\nGH?\n");
}

#[test]
fn ising_pixels_are_white_for_up_spins() {
    let graph = SquareLattice::new(2, 2, false);
    assert_eq!(ising_pixels(&graph, &[true, false, false, true]), vec![255, 0, 0, 255]);
}

#[test]
fn small_lattices_are_upscaled() {
    assert!(should_upscale(&SquareLattice::new(20, 20, false)));
    assert!(!should_upscale(&SquareLattice::new(1024, 2, false)));
    assert!(!should_upscale(&SquareLattice::new(2, 1024, false)));
    assert!(should_upscale(&SquareLattice::new(1023, 1023, false)));
}
