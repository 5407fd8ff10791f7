use rtdriver::vector::Vector;

#[test]
fn test_addition_u8() {
    let x = Vector::new([0u8, 1]);
    let y = Vector::new([5, 254]);

    assert_eq!(x.add(y), Vector::new([5, 255]));
}

#[test]
fn test_addition_u16() {
    let x = Vector::new([0u16, 1]);
    let y = Vector::new([5, 254]);

    assert_eq!(x.add(y), Vector::new([5, 255]));
}

#[test]
fn test_addition_u32() {
    let x = Vector::new([0u32, 1]);
    let y = Vector::new([5, 254]);

    assert_eq!(x.add(y), Vector::new([5, 255]));
}

#[test]
fn test_addition_u64() {
    let x = Vector::new([0u64, 1]);
    let y = Vector::new([5, 254]);

    assert_eq!(x.add(y), Vector::new([5, 255]));
}

#[test]
fn test_addition_u128() {
    let x = Vector::new([0u128, 1]);
    let y = Vector::new([5, 254]);

    assert_eq!(x.add(y), Vector::new([5, 255]));
}

#[test]
fn test_addition_usize() {
    let x = Vector::new([0usize, 1]);
    let y = Vector::new([5, 254]);

    assert_eq!(x.add(y), Vector::new([5, 255]));
}

#[test]
fn test_addition_i8() {
    let x = Vector::new([-5i8, 1]);
    let y = Vector::new([5, -15]);

    assert_eq!(x.add(y), Vector::new([0, -14]));
}

#[test]
fn test_addition_i16() {
    let x = Vector::new([-5i16, 1]);
    let y = Vector::new([5, -15]);

    assert_eq!(x.add(y), Vector::new([0, -14]));
}

#[test]
fn test_addition_i32() {
    let x = Vector::new([-5i32, 1]);
    let y = Vector::new([5, -15]);

    assert_eq!(x.add(y), Vector::new([0, -14]));
}

#[test]
fn test_addition_i64() {
    let x = Vector::new([-5i64, 1]);
    let y = Vector::new([5, -15]);

    assert_eq!(x.add(y), Vector::new([0, -14]));
}

#[test]
fn test_addition_i128() {
    let x = Vector::new([-5i128, 1]);
    let y = Vector::new([5, -15]);

    assert_eq!(x.add(y), Vector::new([0, -14]));
}

#[test]
fn test_addition_isize() {
    let x = Vector::new([-5isize, 1]);
    let y = Vector::new([5, -15]);

    assert_eq!(x.add(y), Vector::new([0, -14]));
}

#[test]
fn test_subtraction() {
    let x = Vector::new([10i32, 3]);
    let y = Vector::new([4, 5]);

    assert_eq!(x.sub(y), Vector::new([6, -2]));
}

#[test]
fn test_zero_and_basis() {
    let z = Vector::<u32, 3>::zero();
    assert_eq!(z, Vector::new([0, 0, 0]));

    let b = Vector::<u32, 3>::basis(1);
    assert_eq!(b, Vector::new([0, 1, 0]));
}

#[test]
fn test_broadcast_and_accessors() {
    let v = Vector::<i64, 4>::broadcast(7);
    assert_eq!(v.as_array(), &[7, 7, 7, 7]);
    assert_eq!(v.get(2), 7);

    let mut w = v;
    w.set(2, -1);
    assert_eq!(w.into_array(), [7, 7, -1, 7]);
}

#[test]
fn test_all_any() {
    assert!(Vector::new([true, true]).all());
    assert!(!Vector::new([true, false]).all());
    assert!(Vector::new([false, true]).any());
    assert!(!Vector::new([false, false]).any());
}

#[test]
fn test_update_each_element() {
    let v = Vector::new([1u32, 2, 3]);
    let w = v.update(|i, x| x + i as u32);
    assert_eq!(w, Vector::new([1, 3, 5]));
}
