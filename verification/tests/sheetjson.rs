use elixcee::sheetjson::write_hidden_intervals;

#[test]
fn hidden_intervals_are_written_as_start_end_pairs() {
    let mut out = String::from("{\"!ref\":\"A1\"");
    write_hidden_intervals(&mut out, "!hiddenRows", &[(2, 3), (7, 7)]);
    assert_eq!(out, "{\"!ref\":\"A1\",\"!hiddenRows\":[[2,3],[7,7]]");
}

#[test]
fn no_hidden_intervals_write_nothing() {
    let mut out = String::from("{}");
    write_hidden_intervals(&mut out, "!hiddenCols", &[]);
    assert_eq!(out, "{}");
}
