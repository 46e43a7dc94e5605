use simple_file_manager::fileapi::FileAPI;
use simple_file_manager::fileapi::GridError;

#[test]
fn scenario_grid_access() {
    let file = FileAPI::from("data.gph").split(',');
    let text = String::from("1,2,3\n4,5,6\n7,8,9\n10,12");
    let reader = file.reader(text.clone());
    assert_eq!(reader.read_header::<usize>(1).unwrap(), vec![vec![1, 2, 3]]);
    assert_eq!(reader.read_footer::<usize>().unwrap(), vec![10, 12]);
    assert_eq!(
        reader.read_body::<usize>(1, 1).unwrap(),
        vec![vec![4, 5, 6], vec![7, 8, 9]]
    );
    let mut reader = file.reader(text);
    reader.read_value(1, 2).unwrap();
    reader.read_value(3, 2).unwrap();
    reader.read_value(2, 1).unwrap();
    assert_eq!(reader.execute::<usize>().unwrap(), vec![2, 8, 4]);
}

#[test]
fn scenario_csv_column() {
    let file = FileAPI::from("table.csv");
    let reader = file.reader(String::from("name,age,score\n1,2,10\n4,5,6"));
    assert_eq!(reader.read_csv::<usize>(3).unwrap(), vec![10, 6]);
    assert_eq!(reader.read_csv::<usize>(1).unwrap(), vec![1, 4]);
}

#[test]
fn builder_round_trip() {
    let file = FileAPI::from("new.gph");
    let mut b = file.builder();
    b.write_line("alpha beta");
    b.write_line("gamma");
    let body = b.render();
    assert_eq!(body, "alpha beta\ngamma\n");
    assert_eq!(b.render(), body);
    let reader = file.reader(body.clone());
    assert_eq!(reader.count_lines(), 2);
    assert_eq!(reader.read_to_string(), body);
}

#[test]
fn header_of_built_file() {
    let file = FileAPI::from("built.gph").split(',');
    let mut b = file.builder();
    b.write_line("1,2,3");
    b.write_line("anything at all");
    b.write_line("not numbers either");
    let reader = file.reader(b.render());
    assert_eq!(reader.read_header::<usize>(1).unwrap(), vec![vec![1, 2, 3]]);
}

#[test]
fn change_value_then_reread() {
    let file = FileAPI::from("data.gph").split(',');
    let mut c = file.changer(String::from("1,2,3\n4,5,6\n7,8,9"));
    c.change_value(2, 2, "99").unwrap();
    let body = c.render();
    assert_eq!(body, "1,2,3\n4,99,6\n7,8,9\n");
    let mut r = file.reader(body);
    r.read_value(2, 2).unwrap();
    r.read_value(2, 1).unwrap();
    r.read_value(3, 3).unwrap();
    assert_eq!(r.execute::<usize>().unwrap(), vec![99, 4, 9]);
}

#[test]
fn chained_changes() {
    let file = FileAPI::from("data.gph").split(',');
    let mut c = file.changer(String::from("1,2,3\n4,5,6\n7,8,9"));
    c.change_value(1, 2, "234").unwrap();
    c.change_value(2, 2, "567").unwrap();
    c.change_value(3, 2, "560").unwrap();
    assert_eq!(c.render(), "1,234,3\n4,567,6\n7,560,9\n");
}

#[test]
fn out_of_range_read() {
    let file = FileAPI::from("data.gph").split(',');
    let mut r = file.reader(String::from("1,2\n3,4"));
    assert_eq!(r.read_value(0, 1), Err(GridError::IndexOutOfRange));
    assert_eq!(r.read_value(3, 1), Err(GridError::IndexOutOfRange));
    assert_eq!(r.read_value(1, 3), Err(GridError::IndexOutOfRange));
    assert_eq!(r.read_value(1, 0), Err(GridError::IndexOutOfRange));
    r.read_value(1, 1).unwrap();
    assert_eq!(r.execute::<usize>().unwrap(), vec![1]);
}

#[test]
fn out_of_range_change() {
    let file = FileAPI::from("data.gph").split(',');
    let mut c = file.changer(String::from("1,2\n3,4"));
    assert_eq!(c.change_value(0, 1, "9"), Err(GridError::IndexOutOfRange));
    assert_eq!(c.change_value(3, 1, "9"), Err(GridError::IndexOutOfRange));
    assert_eq!(c.change_value(1, 5, "9"), Err(GridError::IndexOutOfRange));
    assert_eq!(c.render(), "1,2\n3,4\n");
}

#[test]
fn header_arguments() {
    let file = FileAPI::from("data.gph").split(',');
    let r = file.reader(String::from("1,2\n3,4\n5,6"));
    assert_eq!(r.read_header::<usize>(0), Err(GridError::InvalidArgument));
    assert_eq!(r.read_header::<usize>(4), Err(GridError::IndexOutOfRange));
    assert_eq!(
        r.read_header::<usize>(3).unwrap(),
        vec![vec![1, 2], vec![3, 4], vec![5, 6]]
    );
}

#[test]
fn body_bounds() {
    let file = FileAPI::from("data.gph").split(',');
    let r = file.reader(String::from("1,2\n3,4\n5,6"));
    assert_eq!(r.read_body::<usize>(1, 4), Err(GridError::IndexOutOfRange));
    assert_eq!(r.read_body::<usize>(2, 1).unwrap(), Vec::<Vec<usize>>::new());
    assert_eq!(r.read_body::<usize>(5, 0).unwrap(), Vec::<Vec<usize>>::new());
    assert_eq!(
        r.read_body::<usize>(0, 0).unwrap(),
        vec![vec![1, 2], vec![3, 4], vec![5, 6]]
    );
}

#[test]
fn empty_file_behaviour() {
    let file = FileAPI::from("data.gph");
    let r = file.reader(String::new());
    assert_eq!(r.count_lines(), 0);
    assert_eq!(r.read_footer::<usize>(), Err(GridError::IndexOutOfRange));
    assert_eq!(r.read_csv::<usize>(1).unwrap(), Vec::<usize>::new());
    assert_eq!(r.read_header::<usize>(1), Err(GridError::IndexOutOfRange));
}

#[test]
fn parse_trims_and_bounds() {
    let file = FileAPI::from("data.gph").split(',');
    let mut r = file.reader(String::from(" 42 ,7"));
    r.read_value(1, 1).unwrap();
    assert_eq!(r.execute::<usize>().unwrap(), vec![42]);
    let r2 = file.reader(String::from("18446744073709551615"));
    assert_eq!(r2.read_footer::<u64>().unwrap(), vec![18446744073709551615u64]);
    let r3 = file.reader(String::from("18446744073709551616"));
    assert_eq!(r3.read_footer::<u64>(), Err(GridError::ParseError));
}

#[test]
fn parse_signed() {
    let file = FileAPI::from("data.gph").split(',');
    let r = file.reader(String::from("-5,10,-9223372036854775808,9223372036854775807"));
    assert_eq!(
        r.read_footer::<i64>().unwrap(),
        vec![-5, 10, i64::MIN, i64::MAX]
    );
    let r2 = file.reader(String::from("-9223372036854775809"));
    assert_eq!(r2.read_footer::<i64>(), Err(GridError::ParseError));
    let r3 = file.reader(String::from("9223372036854775808"));
    assert_eq!(r3.read_footer::<i64>(), Err(GridError::ParseError));
}

#[test]
fn parse_rejects_junk() {
    let file = FileAPI::from("data.gph").split(',');
    assert_eq!(
        file.reader(String::from("4x")).read_footer::<usize>(),
        Err(GridError::ParseError)
    );
    assert_eq!(
        file.reader(String::from("1,,3")).read_footer::<usize>(),
        Err(GridError::ParseError)
    );
    assert_eq!(
        file.reader(String::from("+5")).read_footer::<usize>(),
        Err(GridError::ParseError)
    );
    assert_eq!(
        file.reader(String::from("-")).read_footer::<i64>(),
        Err(GridError::ParseError)
    );
}

#[test]
fn csv_fixed_comma_no_trim() {
    let file = FileAPI::from("table.csv").split(';');
    let r = file.reader(String::from("h1,h2\n1, 5\n2,6"));
    assert_eq!(r.read_csv::<usize>(2), Err(GridError::ParseError));
    assert_eq!(r.read_csv::<usize>(1).unwrap(), vec![1, 2]);
    assert_eq!(r.read_csv::<usize>(3), Err(GridError::IndexOutOfRange));
}

#[test]
fn default_space_delimiter() {
    let file = FileAPI::from("data.gph");
    let r = file.reader(String::from("1 2 3\n4 5 6"));
    assert_eq!(r.read_header::<usize>(1).unwrap(), vec![vec![1, 2, 3]]);
}

#[test]
fn delimiter_value_semantics() {
    let a = FileAPI::from("data.gph");
    let b = a.clone().split(',');
    let r = a.reader(String::from("1 2\n3 4"));
    assert_eq!(r.read_footer::<usize>().unwrap(), vec![3, 4]);
    let r2 = b.reader(String::from("1,2"));
    assert_eq!(r2.read_footer::<usize>().unwrap(), vec![1, 2]);
    assert_eq!(a.path, b.path);
}

#[test]
fn trailing_newline_line_count() {
    let file = FileAPI::from("data.gph");
    assert_eq!(file.reader(String::from("a\nb\n")).count_lines(), 2);
    assert_eq!(file.reader(String::from("a\nb")).count_lines(), 2);
    assert_eq!(file.reader(String::from("a\n\n")).count_lines(), 2);
    assert_eq!(file.reader(String::from("\n")).count_lines(), 1);
}
