//! What the text and image renderings of a configuration show.
use vstd::prelude::*;
use crate::graph::{lemma_site_at, LatticeShape, SquareLattice};

verus! {

/// The text of a configuration: one line per row, from the first row to the
/// last, one symbol per site from left to right, each line ending in a
/// newline; here the first `rows` lines.
pub open spec fn grid_text<V>(shape: LatticeShape, config: Seq<V>, symbol: spec_fn(V) -> char, rows: int) -> Seq<char>
    decreases rows,
{
    if rows <= 0 {
        seq![]
    } else {
        grid_text(shape, config, symbol, rows - 1) + row_text(shape, config, symbol, rows - 1, shape.width as int).push('\n')
    }
}

/// The symbols of the first `len` sites of row `y`.
pub open spec fn row_text<V>(shape: LatticeShape, config: Seq<V>, symbol: spec_fn(V) -> char, y: int, len: int) -> Seq<char> {
    Seq::new(len as nat, |x: int| symbol(config[shape.site_at(x, y)]))
}

/// `#` for an up spin, `.` for a down one.
pub open spec fn ising_symbol() -> spec_fn(bool) -> char {
    |up: bool| if up {
        '#'
    } else {
        '.'
    }
}

/// The letters `A` to `H` for the first eight states, `?` for any other.
pub open spec fn potts_symbol() -> spec_fn(u8) -> char {
    |state: u8| if state < 8 {
        seq!['A', 'B', 'C', 'D', 'E', 'F', 'G', 'H'][state as int]
    } else {
        '?'
    }
}

/// The text of an Ising configuration.
pub fn ising_text(graph: &SquareLattice, configuration: &[bool]) -> (text: Vec<char>)
    requires
        graph@.wf(),
        configuration@.len() >= graph@.site_count(),
    ensures
        text@ == grid_text(graph@, configuration@, ising_symbol(), graph@.height as int),
{
    let ghost shape = graph@;
    let width: usize = graph.width();
    let height: usize = graph.height();
    let mut text: Vec<char> = Vec::new();
    let mut y: usize = 0;
    while y < height
        invariant
            shape == graph@,
            shape.wf(),
            width == shape.width,
            height == shape.height,
            configuration@.len() >= shape.site_count(),
            y <= height,
            text@ == grid_text(shape, configuration@, ising_symbol(), y as int),
        decreases height - y,
    {
        let ghost before = text@;
        let mut x: usize = 0;
        while x < width
            invariant
                shape == graph@,
                shape.wf(),
                width == shape.width,
                height == shape.height,
                configuration@.len() >= shape.site_count(),
                y < height,
                x <= width,
                text@ == before + row_text(shape, configuration@, ising_symbol(), y as int, x as int),
            decreases width - x,
        {
            proof {
                lemma_site_at(shape, x as int, y as int);
            }
            let index: usize = y * width + x;
            let symbol = if configuration[index] { '#' } else { '.' };
            text.push(symbol);
            assert(text@ =~= before + row_text(shape, configuration@, ising_symbol(), y as int, x + 1));
            x += 1;
        }
        text.push('\n');
        assert(text@ =~= grid_text(shape, configuration@, ising_symbol(), y + 1));
        y += 1;
    }
    text
}

/// The text of a Potts configuration.
pub fn potts_text(graph: &SquareLattice, configuration: &[u8]) -> (text: Vec<char>)
    requires
        graph@.wf(),
        configuration@.len() >= graph@.site_count(),
    ensures
        text@ == grid_text(graph@, configuration@, potts_symbol(), graph@.height as int),
{
    let ghost shape = graph@;
    let symbols: [char; 8] = ['A', 'B', 'C', 'D', 'E', 'F', 'G', 'H'];
    assert(symbols@ == seq!['A', 'B', 'C', 'D', 'E', 'F', 'G', 'H']);
    let width: usize = graph.width();
    let height: usize = graph.height();
    let mut text: Vec<char> = Vec::new();
    let mut y: usize = 0;
    while y < height
        invariant
            shape == graph@,
            shape.wf(),
            symbols@ == seq!['A', 'B', 'C', 'D', 'E', 'F', 'G', 'H'],
            width == shape.width,
            height == shape.height,
            configuration@.len() >= shape.site_count(),
            y <= height,
            text@ == grid_text(shape, configuration@, potts_symbol(), y as int),
        decreases height - y,
    {
        let ghost before = text@;
        let mut x: usize = 0;
        while x < width
            invariant
                shape == graph@,
                shape.wf(),
                symbols@ == seq!['A', 'B', 'C', 'D', 'E', 'F', 'G', 'H'],
                width == shape.width,
                height == shape.height,
                configuration@.len() >= shape.site_count(),
                y < height,
                x <= width,
                text@ == before + row_text(shape, configuration@, potts_symbol(), y as int, x as int),
            decreases width - x,
        {
            proof {
                lemma_site_at(shape, x as int, y as int);
            }
            let index: usize = y * width + x;
            let state: u8 = configuration[index];
            let symbol = if state < 8 { symbols[state as usize] } else { '?' };
            text.push(symbol);
            assert(text@ =~= before + row_text(shape, configuration@, potts_symbol(), y as int, x + 1));
            x += 1;
        }
        text.push('\n');
        assert(text@ =~= grid_text(shape, configuration@, potts_symbol(), y + 1));
        y += 1;
    }
    text
}

/// The grey levels of an Ising image, row by row: white (255) for an up spin,
/// black (0) for a down one.
pub fn ising_pixels(graph: &SquareLattice, configuration: &[bool]) -> (pixels: Vec<u8>)
    requires
        graph@.wf(),
        configuration@.len() >= graph@.site_count(),
    ensures
        pixels@.len() == graph@.site_count(),
        forall|i: int|
            0 <= i < pixels@.len() ==> #[trigger] pixels@[i] == if configuration@[i] {
                255u8
            } else {
                0u8
            },
{
    let n: usize = graph.width() * graph.height();
    let mut pixels: Vec<u8> = Vec::new();
    let mut i: usize = 0;
    while i < n
        invariant
            n == graph@.site_count(),
            configuration@.len() >= n,
            i <= n,
            pixels@.len() == i,
            forall|k: int|
                0 <= k < i ==> #[trigger] pixels@[k] == if configuration@[k] {
                    255u8
                } else {
                    0u8
                },
        decreases n - i,
    {
        pixels.push(if configuration[i] { 255 } else { 0 });
        i += 1;
    }
    pixels
}

/// Images of lattices narrower and lower than 1024 sites are scaled up to
/// 1024 by 1024 pixels.
pub fn should_upscale(graph: &SquareLattice) -> (upscale: bool)
    ensures
        upscale == (graph@.width < 1024 && graph@.height < 1024),
{
    graph.width() < 1024 && graph.height() < 1024
}

} // verus!
