use echo_reactor::borrows::{choose_first, multiply, pass_val, pass_x, pass_y, MyBox, Owner};
use echo_reactor::list::{_match_empty_or, _match_single_or};

#[test]
fn test_reference_helpers() {
    let x = 7;
    let ref_x = &x;
    assert_eq!(multiply(&2, &3), 6);
    assert_eq!(*pass_val(ref_x), 7);
    let y = 9;
    assert_eq!(*pass_x(&x, &y), 7);
    assert_eq!(*pass_y(&x, &y), 9);
    {
        let second = 3;
        assert_eq!(*choose_first(&x, &second), 7);
    }
}

#[test]
fn test_owner_add_one() {
    let mut owner = Owner(41);
    owner.add_one();
    assert_eq!(owner.value(), 42);
}

#[test]
fn test_my_box() {
    let b = MyBox::new(5);
    assert_eq!(*b.inner(), 5);
    let s = MyBox::new(String::from("Rust"));
    assert_eq!(b.0, 5);
    assert_eq!(s.inner(), "Rust");
}

#[test]
fn test_match_helpers() {
    let xs: Vec<i32> = vec![];
    let empty_result: i32 = _match_empty_or(&xs, &|| -1, &|y, _ys: &Vec<i32>| y);
    assert_eq!(empty_result, -1);

    let ys = vec![4, 5, 6];
    let head: i32 = _match_empty_or(&ys, &|| -1, &|y, _ys: &Vec<i32>| y);
    assert_eq!(head, 4);

    let single = vec![8];
    let got: i32 = _match_single_or(&single, &|y| y * 10, &|y, _ys: &Vec<i32>| y);
    assert_eq!(got, 80);
    let many: i32 = _match_single_or(&ys, &|y| y * 10, &|_y, ys: &Vec<i32>| ys.len() as i32);
    assert_eq!(many, 2);
}
