use um::bitpack::{fitss, fitsu, gets, getu, news, newu};

#[test]
fn working() {
    let result = 2 + 2;
    assert_eq!(result, 4);
}

#[test]
fn fitu_zero() {
    assert_eq!(fitsu(17, 0), false);
}

#[test]
fn fitss_zero() {
    assert_eq!(fitss(17, 0), false);
}

#[test]
fn fitu_23() {
    assert_eq!(fitsu(23, 5), true);
    assert_eq!(fitsu(23, 4), false);
}

#[test]
fn fitss_23() {
    assert_eq!(fitss(23, 6), true);
    assert_eq!(fitss(23, 5), false);
}

#[test]
fn getu_23() {
    assert_eq!(getu(23, 3, 2).unwrap(), 5 as u64);
    assert_eq!(getu(23, 3, 3).unwrap(), 2 as u64);
}

#[test]
fn gets_23() {
    assert_eq!(gets(23, 3, 2).unwrap(), -3 as i64);
    assert_eq!(gets(23, 3, 3).unwrap(), 2 as i64);
}

#[test]
fn newu_23() {
    assert_eq!(newu(23, 3, 3, 7).unwrap(), 63 as u64);
    assert_eq!(newu(23, 3, 3, 6).unwrap(), 55 as u64);
}

#[test]
fn news_23() {
    assert_eq!(news(23, 3, 3, 0).unwrap(), 7 as u64);
    assert_eq!(news(23, 3, 2, 3).unwrap(), 15 as u64);
}

#[test]
fn news_neg3() {
    assert_eq!(news(23, 4, 2, -3).unwrap(), 55 as u64);
}

#[test]
fn full_width_fields() {
    assert_eq!(fitsu(u64::MAX, 64), true);
    assert_eq!(fitss(i64::MIN, 64), true);
    assert_eq!(getu(0xDEADBEEF, 64, 0).unwrap(), 0xDEADBEEF);
}

#[test]
fn unsigned_roundtrip() {
    let packed = newu(0xFFFF_FFFF_FFFF_FFFF, 9, 23, 300).unwrap();
    assert_eq!(getu(packed, 9, 23).unwrap(), 300);
    let packed = newu(0, 25, 0, 33554431).unwrap();
    assert_eq!(getu(packed, 25, 0).unwrap(), 33554431);
}

#[test]
fn signed_roundtrip() {
    let packed = news(0, 5, 18, -16).unwrap();
    assert_eq!(gets(packed, 5, 18).unwrap(), -16);
    let packed = news(0xABCD, 5, 13, 15).unwrap();
    assert_eq!(gets(packed, 5, 13).unwrap(), 15);
}

#[test]
fn newu_rejects_oversized() {
    assert_eq!(newu(23, 3, 3, 8), None);
    assert_eq!(news(23, 3, 3, 4), None);
    assert_eq!(news(23, 3, 3, -5), None);
}

#[test]
fn packing_keeps_neighbours() {
    let word = 0xFFFF_FFFFu64;
    let packed = newu(word, 8, 8, 0).unwrap();
    assert_eq!(packed, 0xFFFF_00FF);
    assert_eq!(getu(packed, 8, 0).unwrap(), 0xFF);
    assert_eq!(getu(packed, 16, 16).unwrap(), 0xFFFF);
}
