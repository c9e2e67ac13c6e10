use sauvequipeut::display::render_radar_view;
use sauvequipeut::radar::{decode_b64, process_blocks};

fn strings(rows: &[&str]) -> Vec<String> {
    rows.iter().map(|row| row.to_string()).collect()
}

fn picture_of(encoded: &str) -> String {
    let line = decode_b64(encoded).unwrap();
    let (horizontal, vertical, cells) = process_blocks(&line).unwrap();
    render_radar_view(&horizontal, &vertical, &cells)
}

#[test]
fn picture_of_a_radar_view() {
    assert_eq!(
        picture_of("zveKvsuL8a8aaaa"),
        "\nVisualisation de la radar view :\n\n##•━• #\n##┃    \n##• • #\n##┃    \n##• • #\n       \n•━• • #\n"
    );
    assert_eq!(
        picture_of("ieysGjGO8papaaa"),
        "\nVisualisation de la radar view :\n\n##• •##\n##┃ ┃##\n•━• •##\n┃   ┃##\n• •━•##\n┃ # # #\n•━•####\n"
    );
}

#[test]
fn picture_of_the_whole_alphabet() {
    assert_eq!(
        picture_of("abcdefghijklmnopqrstuvwxyzABCDEFGHIJKLMNOPQRSTUVWXYZ0123456789+/"),
        "\nVisualisation de la radar view :\n\n•━•####\n┃O#  ##\n  ##• #\n O G#* \n#######\n#M  ###\n#######\n"
    );
}

#[test]
fn picture_of_an_empty_view_is_its_heading() {
    let none: Vec<String> = Vec::new();
    assert_eq!(
        render_radar_view(&none, &none, &none),
        "\nVisualisation de la radar view :\n\n"
    );
}

#[test]
fn picture_of_uneven_rows() {
    let horizontal = strings(&["01 10 00", "00 00 xx"]);
    let vertical = strings(&["01 10", "zz 00 01 10"]);
    let cells = strings(&["0123", "48BF"]);
    assert_eq!(
        render_radar_view(&horizontal, &vertical, &cells),
        "\nVisualisation de la radar view :\n\n• •━•##\n  ┃P┃\n####  #\n#H#G *┃#┃\n#######\n"
    );
}

#[test]
fn picture_draws_every_cell_code() {
    let horizontal = strings(&["", ""]);
    let vertical = strings(&["01 01 01 01 01 01 01 01 01 01 00"]);
    let cells = strings(&["012348BF9x"]);
    assert_eq!(
        render_radar_view(&horizontal, &vertical, &cells),
        "\nVisualisation de la radar view :\n\n#\n   P O M H G * # # ##\n#\n#\n"
    );
}

#[test]
fn picture_without_vertical_walls_ends_each_row_with_a_wall() {
    let horizontal = strings(&["10"]);
    let vertical = strings(&["", "   "]);
    let cells = strings(&["000", ""]);
    assert_eq!(
        render_radar_view(&horizontal, &vertical, &cells),
        "\nVisualisation de la radar view :\n\n•━#\n#\n#\n•━#\n"
    );
}
