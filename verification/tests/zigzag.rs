use mvt_geometry::zigzag::zigzag;
use mvt_geometry::zigzag::zigzag_decode;

#[test]
fn test_zigzag() {
    assert_eq!(zigzag(0), 0);
    assert_eq!(zigzag(-1), 1);
    assert_eq!(zigzag(1), 2);
    assert_eq!(zigzag(-2), 3);
    assert_eq!(zigzag(2), 4);
    assert_eq!(zigzag(4096), 8192);
    assert_eq!(zigzag(-4096), 8191);
}

#[test]
fn test_zigzag_decode() {
    assert_eq!(zigzag_decode(0), 0);
    assert_eq!(zigzag_decode(1), -1);
    assert_eq!(zigzag_decode(2), 1);
    assert_eq!(zigzag_decode(3), -2);
    assert_eq!(zigzag_decode(4), 2);
    assert_eq!(zigzag_decode(8192), 4096);
    assert_eq!(zigzag_decode(8191), -4096);
}

#[test]
fn test_zigzag_roundtrip() {
    let samples: [i32; 13] = [
        0,
        -1,
        1,
        -2,
        2,
        4096,
        -4096,
        32767,
        -32768,
        65535,
        -65535,
        i32::MAX,
        i32::MIN,
    ];
    for v in samples {
        assert_eq!(zigzag_decode(zigzag(v)), v);
    }
}
