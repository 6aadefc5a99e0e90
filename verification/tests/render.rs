use markov_grid::{GenericGrid, Grid, Symbol};

fn lettered(width: usize, height: usize, text: &str) -> Grid {
    let cells: Vec<Symbol> = Symbol::from_string(text)
        .into_iter()
        .map(|cell| cell.unwrap())
        .collect();
    GenericGrid {
        width,
        height,
        grid: cells,
    }
}

#[test]
fn text_has_one_line_per_row() {
    let grid = lettered(3, 2, "BWRGUE");
    assert_eq!(grid.to_text(), "BWR\nGUE\n");
    assert_eq!(Grid::new(2, 1).to_text(), "BB\n");
    assert_eq!(Grid::new(0, 2).to_text(), "\n\n");
    assert_eq!(Grid::new(2, 0).to_text(), "");
}

#[test]
fn pixels_expand_each_cell_to_a_tile() {
    let grid = lettered(2, 2, "BWRG");
    assert_eq!(grid.render_pixels(1), vec![0, 1, 2, 3]);
    assert_eq!(
        grid.render_pixels(2),
        vec![0, 0, 1, 1, 0, 0, 1, 1, 2, 2, 3, 3, 2, 2, 3, 3]
    );
    let row = lettered(3, 1, "UEB");
    assert_eq!(
        row.render_pixels(3),
        vec![
            4, 4, 4, 5, 5, 5, 0, 0, 0, 4, 4, 4, 5, 5, 5, 0, 0, 0, 4, 4, 4, 5, 5, 5, 0, 0, 0,
        ]
    );
    assert_eq!(grid.render_pixels(0), vec![]);
}

#[test]
fn frame_holds_the_pixels() {
    let grid = lettered(3, 2, "BWRGUE");
    let frame = grid.render_gif_frame(2);
    assert_eq!(frame.width, 6);
    assert_eq!(frame.height, 4);
    assert_eq!(frame.buffer.len(), 24);
    assert_eq!(frame.buffer.to_vec(), grid.render_pixels(2));
    assert_eq!(frame.transparent, None);
    assert_eq!(frame.palette, None);
    assert_eq!(frame.delay, 0);
    assert_eq!(frame.top, 0);
    assert_eq!(frame.left, 0);
}

#[test]
fn frame_goes_through_an_encoder() {
    let grid = lettered(2, 2, "BWRG");
    let frame = grid.render_gif_frame(4);
    let mut bytes: Vec<u8> = Vec::new();
    {
        let mut encoder = gif::Encoder::new(&mut bytes, 8, 8, &Symbol::PALETTE).unwrap();
        encoder.write_frame(&frame).unwrap();
    }
    assert_eq!(&bytes[0..6], b"GIF89a");
    let mut decoder = gif::DecodeOptions::new();
    decoder.set_color_output(gif::ColorOutput::Indexed);
    let mut reader = decoder.read_info(&bytes[..]).unwrap();
    let decoded = reader.read_next_frame().unwrap().unwrap();
    assert_eq!(decoded.buffer.to_vec(), grid.render_pixels(4));
}
