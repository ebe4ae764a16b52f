use docindex::location::Location;

#[test]
fn of_in_first_line() {
    let s = "SELECT * FROM person";
    let loc = Location::of_in(&s[7..], s);
    assert_eq!(loc.line, 1);
    assert_eq!(loc.column, 8);
}

#[test]
fn of_in_later_line() {
    let s = "SELECT *\nFROM person\nWHERE x";
    let loc = Location::of_in(&s[21..], s);
    assert_eq!(loc.line, 3);
    assert_eq!(loc.column, 1);
}

#[test]
fn of_in_counts_characters_not_bytes() {
    let s = "héllo wörld";
    let idx = s.find('w').unwrap();
    let loc = Location::of_in(&s[idx..], s);
    assert_eq!(loc.line, 1);
    assert_eq!(loc.column, 7);
}

#[test]
fn of_in_empty_suffix() {
    let s = "ab\ncd";
    let loc = Location::of_in("", s);
    assert_eq!(loc.line, 2);
    assert_eq!(loc.column, 3);
}
