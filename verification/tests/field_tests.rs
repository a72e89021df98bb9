use mcl_rust::{
    get_curve_order, get_field_order, get_fp_serialized_size, get_fr_serialized_size,
    get_g1_serialized_size, get_g2_serialized_size, get_gt_serialized_size, get_version, init,
    CurveType, Fp, Fp2, Fr,
};

const P_DEC: &str = "4002409555221667393417789825735904156556882819939007885332058136124031650490837864442687629129015664037894272559787";
const R_DEC: &str = "52435875175126190479447740508185965837690552500527637822603658699938581184513";

#[test]
fn orders_and_sizes_of_bls12_381() {
    assert!(init(CurveType::BLS12_381));
    assert_eq!(get_field_order(), P_DEC);
    assert_eq!(get_curve_order(), R_DEC);
    assert_eq!(Fp::get_order(), P_DEC);
    assert_eq!(Fr::get_order(), R_DEC);
    assert_eq!(get_fr_serialized_size(), 32);
    assert_eq!(get_fp_serialized_size(), 48);
    assert_eq!(get_g1_serialized_size(), 48);
    assert_eq!(get_g2_serialized_size(), 96);
    assert_eq!(get_gt_serialized_size(), 576);
    assert_eq!(get_version(), 0x0100);
}

#[test]
fn fr_add_then_sub_and_mul_then_div() {
    let x = Fr::from_str("123456789012345678901234567890", 10).unwrap();
    let y = Fr::from_int(-77);
    let s = x.plus(&y);
    assert_eq!(s.minus(&y), x);
    let m = x.times(&y);
    let mut q = Fr::zero();
    Fr::div(&mut q, &m, &y);
    assert_eq!(q, x);
    let mut t = Fr::zero();
    Fr::add(&mut t, &x, &y);
    assert_eq!(t, s);
    Fr::sub(&mut t, &s, &y);
    assert_eq!(t, x);
}

#[test]
fn fp_add_then_sub_and_mul_then_div() {
    let x = Fp::from_str("1a0111ea397fe69a4b1ba7b6434bacd764774b84f38512bf6730d2a0f6b0f6241eabfffeb153ffffb9feffffffffaaaa", 16).unwrap();
    let y = Fp::from_int(12345);
    let s = x.plus(&y);
    assert_eq!(s.get_str(10), "12344");
    assert_eq!(s.minus(&y), x);
    let m = x.times(&y);
    let mut q = Fp::zero();
    Fp::div(&mut q, &m, &y);
    assert_eq!(q, x);
}

#[test]
fn exact_values_of_the_field_operations() {
    let a = Fr::from_int(7);
    let b = Fr::from_int(5);
    assert_eq!(a.plus(&b).get_str(10), "12");
    assert_eq!(a.minus(&b).get_str(10), "2");
    assert_eq!(
        b.minus(&a).get_str(10),
        "52435875175126190479447740508185965837690552500527637822603658699938581184511"
    );
    assert_eq!(a.times(&b).get_str(10), "35");
    assert_eq!(a.squared().get_str(10), "49");
    assert_eq!(
        a.negated().get_str(10),
        "52435875175126190479447740508185965837690552500527637822603658699938581184506"
    );
    // 1 / 2 is (r + 1) / 2
    assert_eq!(
        Fr::from_int(2).inverse().get_str(10),
        "26217937587563095239723870254092982918845276250263818911301829349969290592257"
    );
    assert_eq!(Fr::from_int(2).inverse(), Fr::from_int(1).halved());
    assert_eq!(Fr::from_int(10).halved().get_str(10), "5");
    let big = Fp::from_int(-1);
    assert_eq!(big.times(&big).get_str(10), "1");
    assert_eq!(big.plus(&Fp::from_int(2)).get_str(10), "1");
}

#[test]
fn the_inverse_of_zero_is_zero() {
    let z = Fr::zero();
    let mut y = Fr::from_int(5);
    Fr::inv(&mut y, &z);
    assert!(y.is_zero());
    let mut q = Fr::from_int(5);
    Fr::div(&mut q, &Fr::from_int(9), &z);
    assert!(q.is_zero());
    let zp = Fp::zero();
    let mut yp = Fp::from_int(5);
    Fp::inv(&mut yp, &zp);
    assert!(yp.is_zero());
    let z2 = Fp2::zero();
    let mut y2 = Fp2::one();
    Fp2::inv(&mut y2, &z2);
    assert!(y2.is_zero());
}

#[test]
fn sqr_is_mul_with_itself() {
    let x = Fr::from_int(-12345);
    let mut a = Fr::zero();
    let mut b = Fr::zero();
    Fr::sqr(&mut a, &x);
    Fr::mul(&mut b, &x, &x);
    assert_eq!(a, b);
    let xp = Fp::from_int(-98765);
    let mut ap = Fp::zero();
    let mut bp = Fp::zero();
    Fp::sqr(&mut ap, &xp);
    Fp::mul(&mut bp, &xp, &xp);
    assert_eq!(ap, bp);
    let x2 = Fp2::new(Fp::from_int(3), Fp::from_int(-4));
    let mut a2 = Fp2::zero();
    let mut b2 = Fp2::zero();
    Fp2::sqr(&mut a2, &x2);
    Fp2::mul(&mut b2, &x2, &x2);
    assert_eq!(a2, b2);
    // (3 - 4u)^2 = 9 - 16 - 24u
    assert_eq!(a2, Fp2::new(Fp::from_int(-7), Fp::from_int(-24)));
}

#[test]
fn both_square_roots_square_to_the_number() {
    let x = Fp::from_int(1234567);
    let sq = x.squared();
    let mut y = Fp::zero();
    assert!(Fp::square_root(&mut y, &sq));
    assert_eq!(y.squared(), sq);
    assert_eq!(y.negated().squared(), sq);
    assert!(!y.is_negative());
    assert!(y == x || y.negated() == x);

    let xr = Fr::from_int(-1234567);
    let sqr = xr.squared();
    let mut yr = Fr::zero();
    assert!(Fr::square_root(&mut yr, &sqr));
    assert_eq!(yr.squared(), sqr);
    assert_eq!(yr.negated().squared(), sqr);
    assert!(!yr.is_negative());
    assert!(yr == xr || yr.negated() == xr);

    let x2 = Fp2::new(Fp::from_int(5), Fp::from_int(-6));
    let sq2 = x2.squared();
    let mut y2 = Fp2::zero();
    assert!(Fp2::square_root(&mut y2, &sq2));
    assert_eq!(y2.squared(), sq2);
    assert_eq!(y2.negated().squared(), sq2);
    assert!(y2 == x2 || y2.negated() == x2);
    // a number of the base field whose root lies on the u axis
    let m = Fp2::new(Fp::from_int(-4), Fp::zero());
    let mut ym = Fp2::zero();
    assert!(Fp2::square_root(&mut ym, &m));
    assert_eq!(ym.squared(), m);
    // zero and one
    let mut z = Fp::from_int(9);
    assert!(Fp::square_root(&mut z, &Fp::zero()));
    assert!(z.is_zero());
    let mut zr = Fr::from_int(9);
    assert!(Fr::square_root(&mut zr, &Fr::zero()));
    assert!(zr.is_zero());
    assert!(Fr::square_root(&mut zr, &Fr::one()));
    assert!(zr.is_one());
}

#[test]
fn numbers_without_square_root_are_told() {
    // -1 is no square where the order is 3 modulo 4
    let mut y = Fp::from_int(77);
    assert!(!Fp::square_root(&mut y, &Fp::from_int(-1)));
    assert_eq!(y, Fp::from_int(77));
    assert!(Fp::from_int(-1).sqrt().is_none());
    // 7 generates the units of the scalar field
    let mut yr = Fr::from_int(77);
    assert!(!Fr::square_root(&mut yr, &Fr::from_int(7)));
    assert_eq!(yr, Fr::from_int(77));
    // 1 + u is no square of the extension
    let xi = Fp2::new(Fp::one(), Fp::one());
    let mut y2 = Fp2::one();
    assert!(!Fp2::square_root(&mut y2, &xi));
    assert_eq!(y2, Fp2::one());
}

#[test]
fn predicates_of_field_elements() {
    let half_down = Fr::from_str("26217937587563095239723870254092982918845276250263818911301829349969290592256", 10).unwrap();
    let half_up = half_down.plus(&Fr::one());
    assert!(!half_down.is_negative());
    assert!(half_up.is_negative());
    assert!(!Fr::zero().is_negative());
    assert!(Fr::from_int(-1).is_negative());
    assert!(!Fr::from_int(-1).is_odd());
    assert!(Fr::from_int(1).is_odd());
    assert!(!Fr::zero().is_odd());
    assert!(Fr::one().is_one());
    assert!(!Fr::zero().is_one());
    assert!(Fr::default().is_zero());
    let mut c = Fr::from_int(5);
    c.clear();
    assert!(c.is_zero());
    assert_eq!(Fr::from_int(i32::MIN).plus(&Fr::from_int(i32::MAX)), Fr::from_int(-1));
    assert_eq!(Fr::from_int(3).cmp(&Fr::from_int(-3)), -1);
    assert_eq!(Fr::uninit(), Fr::zero());
}

#[test]
fn text_of_field_elements() {
    let mut x = Fr::zero();
    assert!(x.set_str("0", 10));
    assert!(x.is_zero());
    assert_eq!(x.get_str(10), "0");
    assert_eq!(x.get_str(16), "0");
    assert!(x.set_str("000123", 10));
    assert_eq!(x.get_str(10), "123");
    assert!(x.set_str("DeadBeef", 16));
    assert_eq!(x.get_str(16), "deadbeef");
    assert_eq!(x.get_str(10), "3735928559");
    // the largest element, and the order itself
    assert!(x.set_str("52435875175126190479447740508185965837690552500527637822603658699938581184512", 10));
    assert_eq!(x, Fr::from_int(-1));
    let keep = x;
    assert!(!x.set_str(R_DEC, 10));
    assert!(!x.set_str("", 10));
    assert!(!x.set_str("12a", 10));
    assert!(!x.set_str("-5", 10));
    assert!(!x.set_str(" 5", 10));
    assert!(!x.set_str("0x10", 16));
    assert!(!x.set_str("101", 2));
    assert!(!x.set_str("99999999999999999999999999999999999999999999999999999999999999999999999999999999999999999999999", 10));
    assert_eq!(x, keep);
    assert!(Fr::from_str("zz", 16).is_none());
    assert_eq!(Fr::from_str("ff", 16).unwrap(), Fr::from_int(255));
    for base in [10, 16] {
        for v in [0, 1, 9, 10, 15, 16, 255, 65536, -1, -65536] {
            let a = Fp::from_int(v);
            let s = a.get_str(base);
            assert_eq!(Fp::from_str(&s, base).unwrap(), a);
        }
    }
    let x2 = Fp2::new(Fp::from_int(10), Fp::from_int(255));
    assert_eq!(x2.get_str(16), "a ff");
    assert_eq!(Fp2::from_str("10 255", 10).unwrap(), x2);
    assert!(Fp2::from_str("10", 10).is_none());
    assert!(Fp2::from_str("10  255", 10).is_none());
    assert!(Fp2::from_str("10 255 ", 10).is_none());
    assert!(Fp2::from_str("10 255 3", 10).is_none());
}

#[test]
fn bytes_of_field_elements() {
    let x = Fr::from_int(0x01020304);
    let buf = x.serialize();
    assert_eq!(buf.len(), 32);
    assert_eq!(&buf[0..5], &[4, 3, 2, 1, 0]);
    assert!(buf[5..].iter().all(|b| *b == 0));
    let mut y = Fr::from_int(9);
    assert!(y.deserialize(&buf));
    assert_eq!(x, y);
    // wrong lengths and a value that is not below the order
    assert!(!y.deserialize(&buf[0..31]));
    assert!(!y.deserialize(&[0u8; 33]));
    assert!(!y.deserialize(&[]));
    assert!(!y.deserialize(&[0xffu8; 32]));
    let order = [
        0x01u8, 0x00, 0x00, 0x00, 0xff, 0xff, 0xff, 0xff, 0xfe, 0x5b, 0xfe, 0xff, 0x02, 0xa4, 0xbd,
        0x53, 0x05, 0xd8, 0xa1, 0x09, 0x08, 0xd8, 0x39, 0x33, 0x48, 0x7d, 0x9d, 0x29, 0x53, 0xa7,
        0xed, 0x73,
    ];
    assert!(!y.deserialize(&order));
    assert_eq!(x, y);
    let mut below = order;
    below[0] = 0;
    assert!(y.deserialize(&below));
    assert_eq!(y, Fr::from_int(-1));
    assert_eq!(y.serialize(), below.to_vec());

    let m = Fp::from_int(-1);
    let bm = m.serialize();
    assert_eq!(bm.len(), 48);
    let mut m2 = Fp::zero();
    assert!(m2.deserialize(&bm));
    assert_eq!(m, m2);
    assert!(!m2.deserialize(&[0xffu8; 48]));
    assert_eq!(m, m2);

    let x2 = Fp2::new(Fp::from_int(1), Fp::from_int(2));
    let b2 = x2.serialize();
    assert_eq!(b2.len(), 96);
    assert_eq!(b2[0], 1);
    assert_eq!(b2[48], 2);
    let mut y2 = Fp2::zero();
    assert!(y2.deserialize(&b2));
    assert_eq!(x2, y2);
    assert!(!y2.deserialize(&b2[0..95]));
    let mut bad = b2.clone();
    bad[95] = 0xff;
    assert!(!y2.deserialize(&bad));
    assert_eq!(x2, y2);
}

#[test]
fn little_endian_numbers() {
    let mut x = Fr::from_int(3);
    assert!(x.set_little_endian(&[]));
    assert!(x.is_zero());
    assert!(x.set_little_endian(&[0x10, 0x01]));
    assert_eq!(x, Fr::from_int(0x0110));
    // longer than the field, with zero bytes at the top
    let mut long = vec![0u8; 40];
    long[0] = 7;
    assert!(x.set_little_endian(&long));
    assert_eq!(x, Fr::from_int(7));
    long[39] = 1;
    assert!(!x.set_little_endian(&long));
    assert!(!x.set_little_endian(&[0xffu8; 32]));
    assert_eq!(x, Fr::from_int(7));
    // the same bytes are taken modulo the order
    assert!(x.set_little_endian_mod(&[0xffu8; 32]));
    assert_eq!(
        x.get_str(10),
        "10920338887063814464675503992315976177888879664585288394250266608035967270909"
    );
    assert!(x.set_little_endian_mod(&[]));
    assert!(x.is_zero());
    let mut p = Fp::zero();
    assert!(p.set_little_endian_mod(&[0xffu8; 64]));
    assert!(p.is_valid());
    assert_eq!(p.get_str(16), "2cb5d3a884e56c4fab7cd07ee4e16bc15efebb5d396d7cf82383087033108464532383fa8eaff4e967d3988a62b6c9c");
}

#[test]
fn hashing_to_the_fields() {
    let mut h = Fr::zero();
    assert!(h.set_hash_of(b"abc"));
    assert_eq!(h.get_str(16), "5bcb196f648967a70129b4f3223ce9fe2fa5d01eb7ba7b55aef65c951f12867d");
    let mut g = Fp::zero();
    assert!(g.set_hash_of(b"abc"));
    assert_eq!(g.get_str(16), "107b5e17af99279321d30cdf295441d7f339bc573ba48bb9696d2845942c67839ff784cd0001572c3dfa6368573ff272");
    let mut h2 = Fr::zero();
    assert!(h2.set_hash_of(b"abd"));
    assert!(h != h2);
    let mut h3 = Fr::zero();
    assert!(h3.set_hash_of(b"abc"));
    assert_eq!(h, h3);
}

#[test]
fn random_elements() {
    let mut a = Fr::zero();
    let mut b = Fr::zero();
    assert!(a.set_by_csprng());
    assert!(b.set_by_csprng());
    assert!(a.is_valid());
    assert!(b.is_valid());
    assert!(a != b);
    let mut c = Fp::zero();
    assert!(c.set_by_csprng());
    assert!(c.is_valid());
    assert!(!c.is_zero());
    // samples: the top bit is cleared, and what is not below the order is rejected
    let mut s = Fr::from_int(5);
    assert!(!s.set_from_sample(&[0xffu8; 32]));
    assert_eq!(s, Fr::from_int(5));
    assert!(!s.set_from_sample(&[0u8; 31]));
    let mut sample = [0u8; 32];
    sample[0] = 9;
    sample[31] = 0x80;
    assert!(s.set_from_sample(&sample));
    assert_eq!(s, Fr::from_int(9));
}

#[test]
fn operators_on_field_elements() {
    let x = Fp2::new(Fp::from_int(3), Fp::from_int(4));
    let y = Fp2::new(Fp::from_int(1), Fp::from_int(-2));
    assert_eq!(&x + &y, x.plus(&y));
    assert_eq!(&x - &y, x.minus(&y));
    assert_eq!(&x * &y, x.times(&y));
    assert_eq!(&(&x * &y) / &y, x);
    let mut z = x;
    z += &y;
    z -= &y;
    z *= &y;
    z /= &y;
    assert_eq!(z, x);
    // (3 + 4u)(1 - 2u) = 3 + 8 + (4 - 6)u
    assert_eq!(&x * &y, Fp2::new(Fp::from_int(11), Fp::from_int(-2)));
    assert_eq!(x.times_xi(), Fp2::new(Fp::from_int(-1), Fp::from_int(7)));
    assert_eq!(x.scaled(&Fp::from_int(2)), Fp2::new(Fp::from_int(6), Fp::from_int(8)));
    assert_eq!(x.times(&x.inverse()), Fp2::one());
}
