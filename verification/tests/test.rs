use mcl_rust::{
    get_curve_order, get_field_order, get_fp_serialized_size, get_fr_serialized_size,
    get_g1_serialized_size, get_g2_serialized_size, get_gt_serialized_size, init, pairing,
    CurveType, Fp, Fp2, Fr, G1, G2, GT,
};
use std::mem;

fn field_test_fr() {
    let mut x = Fr::zero();
    assert!(x.is_valid());
    assert!(x.is_zero());
    assert!(!x.is_one());
    x.set_int(1);
    assert!(!x.is_zero());
    assert!(x.is_one());
    let mut y = Fr::from_int(1);
    assert!(y.is_valid());
    assert_eq!(x, y);
    y.set_int(2);
    assert!(x != y);
    x.set_str("65535", 10);
    y.set_str("ffff", 16);
    assert!(x.is_valid());
    assert_eq!(x, y);
    x.set_int(123);
    assert!(x.is_odd());
    x.set_int(124);
    assert!(!x.is_odd());
    assert!(!x.is_negative());
    x.set_int(-124);
    assert!(x.is_negative());
    x.set_int(5);
    y.set_int(2);
    assert_eq!(x.cmp(&y), 1);
    assert_eq!(x.cmp(&x), 0);
    assert_eq!(y.cmp(&x), -1);
    y.set_int(-2); // unsigned large number
    assert_eq!(x.cmp(&y), -1);
    assert_eq!(y.cmp(&x), 1);

    let mut z = Fr::uninit();
    let mut w = Fr::uninit();

    let a = 256;
    let b = 8;
    x.set_int(a);
    y.set_int(b);
    Fr::add(&mut z, &x, &y);
    w.set_int(a + b);
    assert_eq!(z, w);
    assert_eq!(w, (&x + &y));
    z = x.clone();
    z += &y;
    assert_eq!(z, w);

    Fr::sub(&mut z, &x, &y);
    w.set_int(a - b);
    assert_eq!(z, w);
    assert_eq!(w, (&x - &y));
    z = x.clone();
    z -= &y;
    assert_eq!(z, w);

    Fr::mul(&mut z, &x, &y);
    w.set_int(a * b);
    assert_eq!(z, w);
    assert_eq!(w, (&x * &y));
    z = x.clone();
    z *= &y;
    assert_eq!(z, w);

    Fr::div(&mut z, &x, &y);
    w.set_int(a / b);
    assert_eq!(z, w);
    assert_eq!(z, (&x / &y));
    z = x.clone();
    z /= &y;
    assert_eq!(z, w);

    assert!(x.set_little_endian_mod(&[1, 2, 3, 4, 5]));
    assert_eq!(x.get_str(16), "504030201");
    Fr::sqr(&mut y, &x);
    Fr::mul(&mut z, &x, &x);
    assert_eq!(y, z);

    assert!(Fr::square_root(&mut w, &y));
    if w != x {
        Fr::neg(&mut z, &w);
        assert_eq!(x, z);
    }
}

fn field_test_fp() {
    let mut x = Fp::zero();
    assert!(x.is_valid());
    assert!(x.is_zero());
    assert!(!x.is_one());
    x.set_int(1);
    assert!(!x.is_zero());
    assert!(x.is_one());
    let mut y = Fp::from_int(1);
    assert!(y.is_valid());
    assert_eq!(x, y);
    y.set_int(2);
    assert!(x != y);
    x.set_str("65535", 10);
    y.set_str("ffff", 16);
    assert!(x.is_valid());
    assert_eq!(x, y);
    x.set_int(123);
    assert!(x.is_odd());
    x.set_int(124);
    assert!(!x.is_odd());
    assert!(!x.is_negative());
    x.set_int(-124);
    assert!(x.is_negative());
    x.set_int(5);
    y.set_int(2);
    assert_eq!(x.cmp(&y), 1);
    assert_eq!(x.cmp(&x), 0);
    assert_eq!(y.cmp(&x), -1);
    y.set_int(-2); // unsigned large number
    assert_eq!(x.cmp(&y), -1);
    assert_eq!(y.cmp(&x), 1);

    let mut z = Fp::uninit();
    let mut w = Fp::uninit();

    let a = 256;
    let b = 8;
    x.set_int(a);
    y.set_int(b);
    Fp::add(&mut z, &x, &y);
    w.set_int(a + b);
    assert_eq!(z, w);
    assert_eq!(w, (&x + &y));
    z = x.clone();
    z += &y;
    assert_eq!(z, w);

    Fp::sub(&mut z, &x, &y);
    w.set_int(a - b);
    assert_eq!(z, w);
    assert_eq!(w, (&x - &y));
    z = x.clone();
    z -= &y;
    assert_eq!(z, w);

    Fp::mul(&mut z, &x, &y);
    w.set_int(a * b);
    assert_eq!(z, w);
    assert_eq!(w, (&x * &y));
    z = x.clone();
    z *= &y;
    assert_eq!(z, w);

    Fp::div(&mut z, &x, &y);
    w.set_int(a / b);
    assert_eq!(z, w);
    assert_eq!(z, (&x / &y));
    z = x.clone();
    z /= &y;
    assert_eq!(z, w);

    assert!(x.set_little_endian_mod(&[1, 2, 3, 4, 5]));
    assert_eq!(x.get_str(16), "504030201");
    Fp::sqr(&mut y, &x);
    Fp::mul(&mut z, &x, &x);
    assert_eq!(y, z);

    assert!(Fp::square_root(&mut w, &y));
    if w != x {
        Fp::neg(&mut z, &w);
        assert_eq!(x, z);
    }
}

#[allow(non_snake_case)]
fn ec_test_g1(P: &G1) {
    assert!(P.is_valid());
    assert!(!P.is_zero());
    let mut Pa = G1::zero();
    assert!(Pa.is_zero());
    assert_ne!(Pa, *P);
    G1::neg(&mut Pa, P);
    let mut x: Fp = Fp::uninit();
    Fp::neg(&mut x, &Pa.y);
    assert_eq!(&x, &P.y);

    G1::dbl(&mut Pa, P);
    let mut Pb: G1 = G1::uninit();
    let mut Pc: G1 = G1::uninit();
    G1::add(&mut Pb, P, P);
    assert_eq!(Pb, Pa);
    G1::add(&mut Pc, &Pb, P);
    assert_eq!(Pc, (&Pb + P));
    assert_eq!(Pb, (&Pc - P));
    let mut y: Fr = Fr::from_int(1);
    G1::mul(&mut Pb, P, &y);
    assert_eq!(Pb, *P);
    y.set_int(2);
    G1::mul(&mut Pb, P, &y);
    assert_eq!(Pb, Pa);
    y.set_int(3);
    G1::mul(&mut Pb, P, &y);
    assert_eq!(Pb, Pc);
    Pb = Pa.clone();
    Pb += P;
    assert_eq!(Pb, Pc);

    Pb -= P;
    assert_eq!(Pb, Pa);
    Pa.set_hash_of(b"abcd");
    assert!(Pa.is_valid());

    // mul_vec test
    let tbl = [0, 1, 2, 3, 4, 15, 16, 50, 300];
    for n in tbl {
        let mut xs: Vec<G1> = Vec::new();
        let mut ys: Vec<Fr> = Vec::new();
        xs.resize_with(n, Default::default);
        ys.resize_with(n, Default::default);
        let mut y = <Fr>::zero();
        for i in 0..n {
            ys[i].set_by_csprng();
            G1::mul(&mut xs[i], P, &ys[i]);
            let mut yy = Fr::uninit();
            <Fr>::sqr(&mut yy, &ys[i]);
            y += &yy;
        }
        let mut g1 = G1::uninit();
        let mut g2 = G1::uninit();
        G1::mul_vec(&mut g1, &xs, &ys);
        G1::mul(&mut g2, P, &y);
        assert_eq!(g1.get_str(16), g2.get_str(16));
    }
}

#[allow(non_snake_case)]
fn ec_test_g2(P: &G2) {
    assert!(P.is_valid());
    assert!(!P.is_zero());
    let mut Pa = G2::zero();
    assert!(Pa.is_zero());
    assert_ne!(Pa, *P);
    G2::neg(&mut Pa, P);
    let mut x: Fp2 = Fp2::uninit();
    Fp2::neg(&mut x, &Pa.y);
    assert_eq!(&x, &P.y);

    G2::dbl(&mut Pa, P);
    let mut Pb: G2 = G2::uninit();
    let mut Pc: G2 = G2::uninit();
    G2::add(&mut Pb, P, P);
    assert_eq!(Pb, Pa);
    G2::add(&mut Pc, &Pb, P);
    assert_eq!(Pc, (&Pb + P));
    assert_eq!(Pb, (&Pc - P));
    let mut y: Fr = Fr::from_int(1);
    G2::mul(&mut Pb, P, &y);
    assert_eq!(Pb, *P);
    y.set_int(2);
    G2::mul(&mut Pb, P, &y);
    assert_eq!(Pb, Pa);
    y.set_int(3);
    G2::mul(&mut Pb, P, &y);
    assert_eq!(Pb, Pc);
    Pb = Pa.clone();
    Pb += P;
    assert_eq!(Pb, Pc);

    Pb -= P;
    assert_eq!(Pb, Pa);
    Pa.set_hash_of(b"abcd");
    assert!(Pa.is_valid());

    // mul_vec test
    let tbl = [0, 1, 2, 3, 4, 15, 16, 50, 300];
    for n in tbl {
        let mut xs: Vec<G2> = Vec::new();
        let mut ys: Vec<Fr> = Vec::new();
        xs.resize_with(n, Default::default);
        ys.resize_with(n, Default::default);
        let mut y = <Fr>::zero();
        for i in 0..n {
            ys[i].set_by_csprng();
            G2::mul(&mut xs[i], P, &ys[i]);
            let mut yy = Fr::uninit();
            <Fr>::sqr(&mut yy, &ys[i]);
            y += &yy;
        }
        let mut g1 = G2::uninit();
        let mut g2 = G2::uninit();
        G2::mul_vec(&mut g1, &xs, &ys);
        G2::mul(&mut g2, P, &y);
        assert_eq!(g1.get_str(16), g2.get_str(16));
    }
}

#[allow(non_snake_case)]
fn testCurve(curve: CurveType) {
    assert_eq!(mem::size_of::<Fr>(), 32);
    assert_eq!(mem::size_of::<Fp>(), 48);
    assert_eq!(mem::size_of::<Fp2>(), 48 * 2);
    assert_eq!(mem::size_of::<G1>(), 48 * 3);
    assert_eq!(mem::size_of::<G2>(), 48 * 2 * 3);
    assert_eq!(mem::size_of::<GT>(), 48 * 12);
    assert!(init(curve));
    let b = match curve {
        CurveType::BN254 => 32,
        _ => 48,
    };
    assert_eq!(get_fp_serialized_size(), b);
    assert_eq!(get_g1_serialized_size(), b);
    assert_eq!(get_g2_serialized_size(), b * 2);
    assert_eq!(get_gt_serialized_size(), b * 12);
    assert_eq!(get_fr_serialized_size(), 32);

    field_test_fr();
    field_test_fp();

    let mut P = G1::zero();
    let mut Q = G2::zero();
    P.set_hash_of(b"abc");
    Q.set_hash_of(b"abc");

    match curve {
        CurveType::BN254 => {
            // Fp
            assert_eq!(
                get_field_order(),
                "16798108731015832284940804142231733909889187121439069848933715426072753864723"
            );
            // Fr
            assert_eq!(
                get_curve_order(),
                "16798108731015832284940804142231733909759579603404752749028378864165570215949"
            );
        }
        CurveType::BLS12_381 => {
            // Fp
            assert_eq!(get_field_order(), "4002409555221667393417789825735904156556882819939007885332058136124031650490837864442687629129015664037894272559787");
            // Fr
            assert_eq!(
                get_curve_order(),
                "52435875175126190479447740508185965837690552500527637822603658699938581184513"
            );
        }
        CurveType::BLS12_377 => {
            // Fp
            assert_eq!(get_field_order(), "258664426012969094010652733694893533536393512754914660539884262666720468348340822774968888139573360124440321458177");
            // Fr
            assert_eq!(
                get_curve_order(),
                "8444461749428370424248824938781546531375899335154063827935233455917409239041"
            );
        }
        _ => {}
    }

    ec_test_g1(&P);
    ec_test_g2(&Q);

    let x = Fr::from_int(3);
    let y = Fp::from_int(-1);
    let mut e = GT::uninit();
    pairing(&mut e, &P, &Q);
    {
        let buf = x.serialize();
        let mut y: Fr = Fr::uninit();
        assert!(y.deserialize(&buf));
        assert_eq!(x, y);
    }
    {
        let buf = y.serialize();
        let mut w: Fp = Fp::uninit();
        assert!(w.deserialize(&buf));
        assert_eq!(y, w);
    }
    {
        let buf = P.serialize();
        let mut y: G1 = G1::uninit();
        assert!(y.deserialize(&buf));
        assert_eq!(P, y);
    }
    {
        let buf = Q.serialize();
        let mut y: G2 = G2::uninit();
        assert!(y.deserialize(&buf));
        assert_eq!(Q, y);
    }
    {
        let buf = e.serialize();
        let mut y: GT = GT::uninit();
        assert!(y.deserialize(&buf));
        assert_eq!(e, y);
    }
    {
        let buf = Q.x.serialize();
        let mut y: Fp2 = Fp2::uninit();
        assert!(y.deserialize(&buf));
        assert_eq!(Q.x, y);
    }

    for base in [10, 16] {
        let s = x.get_str(base);
        let mut y: Fr = Fr::uninit();
        assert!(y.set_str(&s, base));
        assert_eq!(x, y);
    }
    for base in [10, 16] {
        let s = y.get_str(base);
        let mut w: Fp = Fp::uninit();
        assert!(w.set_str(&s, base));
        assert_eq!(y, w);
    }
    for base in [10, 16] {
        let s = P.get_str(base);
        let mut y: G1 = G1::uninit();
        assert!(y.set_str(&s, base));
        assert_eq!(P, y);
    }
    for base in [10, 16] {
        let s = Q.get_str(base);
        let mut y: G2 = G2::uninit();
        assert!(y.set_str(&s, base));
        assert_eq!(Q, y);
    }
    for base in [10, 16] {
        let s = e.get_str(base);
        let mut y: GT = GT::uninit();
        assert!(y.set_str(&s, base));
        assert_eq!(e, y);
    }
}

#[test]
fn test_all() {
    testCurve(CurveType::BLS12_381);
}

#[test]
fn other_curves_are_refused() {
    assert!(!init(CurveType::BN254));
    assert!(!init(CurveType::BN381));
    assert!(!init(CurveType::SNARK));
    assert!(!init(CurveType::BLS12_377));
    assert!(!init(CurveType::BN_P256));
    assert!(init(CurveType::BLS12_381));
    assert!(init(CurveType::BLS12_381));
    assert_eq!(CurveType::BLS12_381.id(), 5);
    assert_eq!(CurveType::BN254.id(), 0);
    assert_eq!(CurveType::BLS12_377.id(), 8);
}
