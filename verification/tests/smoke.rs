use stackblur::blur;

#[test]
fn empty_slice() {
    let empty: &mut [u32] = &mut [];

    let res = blur(empty, 1, 1, 1);

    println!("{:?}", empty);
    assert!(res.is_err());
    assert!(empty.is_empty());
}

#[test]
fn blur_tiny_image() {
    let mut v = vec![0x12345678];

    let res = blur(&mut v, 1, 1, 1);

    println!("{:?}", v);
    assert_eq!(res, Ok(()));
    assert_eq!(v, vec![0x12345678]);
}

#[test]
fn blur_tiny_image_large_radius() {
    let mut v = vec![0x12345678; 9];

    let res = blur(&mut v, 3, 3, u8::MAX);

    println!("{:?}", v);
    assert_eq!(res, Ok(()));
    assert_eq!(v, vec![0x12345678; 9]);
}

#[test]
fn incorrect_dimensions() {
    let mut v = vec![0x12345678; 9];

    let res = blur(&mut v, 5, 5, 15);

    println!("{:?}", v);
    assert!(res.is_err());
    assert_eq!(v, vec![0x12345678; 9]);
}

#[test]
fn mod_tiny_image() {
    let mut v = vec![0x12345678];

    let res = stackblur::recompute::blur(&mut v, 1, 1, 1);

    println!("{:?}", v);
    assert_eq!(res, Ok(()));
    assert_eq!(v, vec![0x12345678]);
}

#[test]
fn mod_tiny_image_large_radius() {
    let mut v = vec![0x12345678; 9];

    let res = stackblur::recompute::blur(&mut v, 3, 3, u8::MAX);

    println!("{:?}", v);
    assert_eq!(res, Ok(()));
    assert_eq!(v, vec![0x12345678; 9]);
}
