use m_o::options::{terminal_width, Opt, PrintOptions, DEFAULT_COLUMNS, DEFAULT_INDENT};

#[test]
fn the_defaults_are_four_spaces_and_eighty_columns() {
    let options = PrintOptions::default();
    assert_eq!(options.indent, 4);
    assert_eq!(options.columns, 80);
    assert_eq!(DEFAULT_INDENT, 4);
    assert_eq!(DEFAULT_COLUMNS, 80);
}

#[test]
fn the_width_of_the_terminal_is_its_columns() {
    assert_eq!(terminal_width(Some((132, 43))), 132);
    assert_eq!(terminal_width(Some((0, 0))), 0);
    assert_eq!(terminal_width(None), 80);
}

#[test]
fn the_columns_asked_for_win_over_the_terminal() {
    let opt = Opt::from_args(2, Some(100), Some((132, 43)));
    assert_eq!(opt, Opt { indent: 2, columns: 100 });
    let opt = Opt::from_args(4, None, Some((132, 43)));
    assert_eq!(opt, Opt { indent: 4, columns: 132 });
    let opt = Opt::from_args(8, None, None);
    assert_eq!(opt, Opt { indent: 8, columns: 80 });
    let opt = Opt::from_args(0, Some(0), None);
    assert_eq!(opt, Opt { indent: 0, columns: 0 });
}

#[test]
fn the_printing_options_are_those_of_the_run() {
    let opt = Opt { indent: 3, columns: 17 };
    assert_eq!(
        opt.print_options(),
        PrintOptions { indent: 3, columns: 17 }
    );
}

#[test]
fn printing_options_come_from_the_options_of_a_run() {
    let opt = Opt { indent: 2, columns: 40 };
    let options: PrintOptions = (&opt).into();
    assert_eq!(options, PrintOptions { indent: 2, columns: 40 });
    assert_eq!(PrintOptions::from(&opt), opt.print_options());
}
