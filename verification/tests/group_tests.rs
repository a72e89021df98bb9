use mcl_rust::{Fp, Fp2, Fr, G1, G2};

fn g1_generator() -> G1 {
    G1 {
        x: Fp::from_str("17f1d3a73197d7942695638c4fa9ac0fc3688c4f9774b905a14e3a3f171bac586c55e83ff97a1aeffb3af00adb22c6bb", 16).unwrap(),
        y: Fp::from_str("08b3f481e3aaa0f1a09e30ed741d8ae4fcf5e095d5d00af600db18cb2c04b3edd03cc744a2888ae40caa232946c5e7e1", 16).unwrap(),
        z: Fp::from_int(1),
    }
}

fn g2_generator() -> G2 {
    G2 {
        x: Fp2::new(
            Fp::from_str("024aa2b2f08f0a91260805272dc51051c6e47ad4fa403b02b4510b647ae3d1770bac0326a805bbefd48056c8c121bdb8", 16).unwrap(),
            Fp::from_str("13e02b6052719f607dacd3a088274f65596bd0d09920b61ab5da61bbdc7f5049334cf11213945d57e5ac7d055d042b7e", 16).unwrap(),
        ),
        y: Fp2::new(
            Fp::from_str("0ce5d527727d6e118cc9cdc6da2e351aadfd9baa8cbdd3a76d429a695160d12c923ac9cc3baca289e193548608b82801", 16).unwrap(),
            Fp::from_str("0606c4a02ea734cc32acd2b02bc28b99cb3e287e85a763af267492ab572e99ab3f370d275cec1da1aaa9075ff05f79be", 16).unwrap(),
        ),
        z: Fp2::one(),
    }
}

/// The point (4, y) of the curve, which is not of the group.
fn g1_outside_the_group() -> G1 {
    let x = Fp::from_int(4);
    let y = Fp::from_int(68).sqrt().unwrap();
    G1 { x, y, z: Fp::one() }
}

#[test]
fn validity_of_points() {
    assert!(g1_generator().is_valid());
    assert!(g2_generator().is_valid());
    assert!(G1::zero().is_valid());
    assert!(G2::zero().is_valid());
    let off_curve = G1 { x: Fp::from_int(1), y: Fp::from_int(1), z: Fp::from_int(1) };
    assert!(!off_curve.is_on_curve());
    assert!(!off_curve.is_valid());
    let outside = g1_outside_the_group();
    assert!(outside.is_on_curve());
    assert!(!outside.is_valid());
    let off2 = G2 { x: Fp2::one(), y: Fp2::one(), z: Fp2::one() };
    assert!(!off2.is_valid());
    assert!(G1::default().is_zero());
    let mut c = g1_generator();
    c.clear();
    assert!(c.is_zero());
    assert_eq!(G1::uninit(), G1::zero());
}

#[test]
fn g1_group_law_for_small_multiples() {
    let p = g1_generator();
    let mut d = G1::zero();
    let mut s = G1::zero();
    G1::dbl(&mut d, &p);
    G1::add(&mut s, &p, &p);
    assert_eq!(d, s);
    let mut m = G1::zero();
    G1::mul(&mut m, &p, &Fr::from_int(2));
    assert_eq!(m, d);
    let mut prev = G1::zero();
    for n in 1..=20 {
        let mut cur = G1::zero();
        G1::mul(&mut cur, &p, &Fr::from_int(n));
        let mut step = G1::zero();
        G1::add(&mut step, &prev, &p);
        assert_eq!(cur, step);
        assert!(cur.is_valid());
        prev = cur;
    }
    // the identity and opposite points
    let z = G1::zero();
    assert_eq!(p.plus(&z), p);
    assert_eq!(z.plus(&p), p);
    assert!(z.plus(&z).is_zero());
    assert!(z.doubled().is_zero());
    assert!(p.plus(&p.negated()).is_zero());
    let mut diff = G1::zero();
    G1::sub(&mut diff, &p, &p);
    assert!(diff.is_zero());
    G1::mul(&mut m, &p, &Fr::zero());
    assert!(m.is_zero());
    G1::mul(&mut m, &p, &Fr::from_int(-1));
    assert_eq!(m, p.negated());
    G1::mul(&mut m, &z, &Fr::from_int(12345));
    assert!(m.is_zero());
}

#[test]
fn g2_group_law_for_small_multiples() {
    let q = g2_generator();
    let mut d = G2::zero();
    let mut s = G2::zero();
    G2::dbl(&mut d, &q);
    G2::add(&mut s, &q, &q);
    assert_eq!(d, s);
    let mut m = G2::zero();
    G2::mul(&mut m, &q, &Fr::from_int(2));
    assert_eq!(m, d);
    let mut prev = G2::zero();
    for n in 1..=12 {
        let mut cur = G2::zero();
        G2::mul(&mut cur, &q, &Fr::from_int(n));
        let mut step = G2::zero();
        G2::add(&mut step, &prev, &q);
        assert_eq!(cur, step);
        prev = cur;
    }
    assert!(q.plus(&q.negated()).is_zero());
    G2::mul(&mut m, &q, &Fr::from_int(-1));
    assert_eq!(m, q.negated());
    assert!(m.is_valid());
}

#[test]
fn points_are_compared_as_points() {
    let p = g1_generator();
    let d = p.doubled();
    let n = d.normalized();
    assert!(n.z.is_one());
    assert!(d.z != n.z);
    assert_eq!(d, n);
    assert!(d != p);
    assert!(p != G1::zero());
    let mut nn = G1::zero();
    G1::normalize(&mut nn, &d);
    assert_eq!(nn.x, n.x);
    assert_eq!(nn.y, n.y);
    assert!(G1::zero().normalized().is_zero());
    // an identity with other coordinates is the identity
    let odd_zero = G1 { x: Fp::from_int(5), y: Fp::from_int(6), z: Fp::zero() };
    assert_eq!(odd_zero, G1::zero());
    assert_eq!(odd_zero.plus(&odd_zero), G1::zero());
    let q = g2_generator().doubled();
    assert_eq!(q, q.normalized());
}

#[test]
fn sums_of_products() {
    let p = g1_generator();
    for n in [0usize, 1, 2, 16] {
        let mut xs: Vec<G1> = Vec::new();
        let mut ys: Vec<Fr> = Vec::new();
        let mut want = G1::zero();
        for i in 0..n {
            let k = Fr::from_int(3 * (i as i32) + 1);
            let s = Fr::from_int(-7 * (i as i32) + 2);
            let mut pt = G1::zero();
            G1::mul(&mut pt, &p, &k);
            let mut term = G1::zero();
            G1::mul(&mut term, &pt, &s);
            want = want.plus(&term);
            xs.push(pt);
            ys.push(s);
        }
        let mut got = G1::from_str("1 1 1", 10).unwrap_or(p);
        G1::mul_vec(&mut got, &xs, &ys);
        assert_eq!(got, want);
        if n == 0 {
            assert!(got.is_zero());
        }
    }
    let q = g2_generator();
    let xs = vec![q, q.doubled()];
    let ys = vec![Fr::from_int(5), Fr::from_int(-2)];
    let mut got = G2::zero();
    G2::mul_vec(&mut got, &xs, &ys);
    // 5 q - 2 (2 q) = q
    assert_eq!(got, q);
}

#[test]
fn bytes_of_points() {
    let p = g1_generator();
    let buf = p.serialize();
    assert_eq!(buf.len(), 48);
    let want = "bbc622db0af03afbef1a7af93fe8556c58ac1b173f3a4ea105b974974f8c68c30faca94f8c63952694d79731a7d3f197";
    let hex: String = buf.iter().map(|b| format!("{:02x}", b)).collect();
    assert_eq!(hex, want);
    let mut back = G1::zero();
    assert!(back.deserialize(&buf));
    assert_eq!(back, p);
    assert!(back.z.is_one());
    // the opposite point differs in the sign bit alone
    let nb = p.negated().serialize();
    assert_eq!(nb[47], buf[47] ^ 0x80);
    assert_eq!(&nb[0..47], &buf[0..47]);
    assert!(back.deserialize(&nb));
    assert_eq!(back, p.negated());
    // a point in Jacobian coordinates has the bytes of its affine form
    assert_eq!(p.doubled().serialize(), p.doubled().normalized().serialize());
    // the identity
    let zb = G1::zero().serialize();
    assert_eq!(zb.len(), 48);
    assert_eq!(zb[47], 0x40);
    assert!(zb[0..47].iter().all(|b| *b == 0));
    assert!(back.deserialize(&zb));
    assert!(back.is_zero());

    let q = g2_generator();
    let qb = q.serialize();
    assert_eq!(qb.len(), 96);
    let mut qback = G2::zero();
    assert!(qback.deserialize(&qb));
    assert_eq!(qback, q);
    assert!(qback.deserialize(&q.negated().serialize()));
    assert_eq!(qback, q.negated());
    assert!(qback.deserialize(&G2::zero().serialize()));
    assert!(qback.is_zero());
}

#[test]
fn bytes_that_are_no_point_are_refused() {
    let p = g1_generator();
    let good = p.serialize();
    let mut t = p.doubled();
    let keep = t;
    // wrong lengths
    assert!(!t.deserialize(&good[0..47]));
    assert!(!t.deserialize(&[]));
    let mut long = good.clone();
    long.push(0);
    assert!(!t.deserialize(&long));
    // an abscissa at which the curve has no point
    let mut no_point = [0u8; 48];
    no_point[0] = 1;
    assert!(!t.deserialize(&no_point));
    // a point of the curve outside the group
    let mut outside = [0u8; 48];
    outside[0] = 4;
    assert!(!t.deserialize(&outside));
    // an abscissa that is not below the order of the field
    let mut big = [0xffu8; 48];
    big[47] = 0x3f;
    assert!(!t.deserialize(&big));
    // the flag of the identity with other bits set
    let mut bad_zero = [0u8; 48];
    bad_zero[47] = 0x40;
    bad_zero[3] = 1;
    assert!(!t.deserialize(&bad_zero));
    bad_zero[3] = 0;
    bad_zero[47] = 0xc0;
    assert!(!t.deserialize(&bad_zero));
    // nothing of this has touched the target
    assert_eq!(t.x, keep.x);
    assert_eq!(t.y, keep.y);
    assert_eq!(t.z, keep.z);

    let mut t2 = g2_generator();
    let keep2 = t2;
    assert!(!t2.deserialize(&good));
    assert!(!t2.deserialize(&[0u8; 96]));
    let mut one = [0u8; 96];
    one[0] = 2;
    assert!(!t2.deserialize(&one) || t2.is_valid());
    assert!(!t2.deserialize(&[0xffu8; 96]));
    assert!(keep2.is_valid());
}

#[test]
fn text_of_points() {
    let p = g1_generator();
    assert_eq!(G1::zero().get_str(10), "0");
    assert_eq!(G1::from_str("0", 16).unwrap(), G1::zero());
    let s = p.get_str(16);
    assert_eq!(s, "1 17f1d3a73197d7942695638c4fa9ac0fc3688c4f9774b905a14e3a3f171bac586c55e83ff97a1aeffb3af00adb22c6bb 8b3f481e3aaa0f1a09e30ed741d8ae4fcf5e095d5d00af600db18cb2c04b3edd03cc744a2888ae40caa232946c5e7e1");
    assert_eq!(G1::from_str(&s, 16).unwrap(), p);
    assert_eq!(p.doubled().get_str(10), p.doubled().normalized().get_str(10));
    let mut t = p;
    assert!(!t.set_str("", 10));
    assert!(!t.set_str("1", 10));
    assert!(!t.set_str("2 1 1", 10));
    assert!(!t.set_str("1 1 1", 10));
    assert!(!t.set_str("1 1", 10));
    assert!(!t.set_str("0 0", 10));
    assert!(!t.set_str(&s, 10));
    assert!(!t.set_str(&s, 8));
    // a point of the curve outside the group
    let o = g1_outside_the_group();
    let so = format!("1 {} {}", o.x.get_str(10), o.y.get_str(10));
    assert!(!t.set_str(&so, 10));
    assert_eq!(t, p);
    let q = g2_generator();
    for base in [10, 16] {
        let sq = q.get_str(base);
        assert_eq!(sq.split(' ').count(), 5);
        assert_eq!(G2::from_str(&sq, base).unwrap(), q);
    }
    assert_eq!(G2::zero().get_str(16), "0");
}

#[test]
fn hashing_to_the_groups() {
    let mut p = G1::zero();
    assert!(p.set_hash_of(b"abc"));
    assert!(p.is_valid());
    assert!(!p.is_zero());
    let n = p.normalized();
    assert_eq!(n.x.get_str(16), "ae30d01fe0efd8abd9dc99f3d188470f17f4e9a636b2c77d3961c92a7cc5f8e540fdf6503b72723b8de80960cb5857b");
    assert_eq!(n.y.get_str(16), "8cb948cb3a009111acad74256bf7537b73aacbe87c4aebb3f3c2436b15555254df990036bd680eea050d54183a38f5c");
    let mut p2 = G1::zero();
    assert!(p2.set_hash_of(b"abc"));
    assert_eq!(p, p2);
    assert!(p2.set_hash_of(b"abd"));
    assert!(p != p2);
    assert!(p2.set_hash_of(b""));
    assert!(p2.is_valid());
    let mut q = G2::zero();
    let mut q2 = G2::zero();
    assert!(q.set_hash_of(b"abc"));
    assert!(q2.set_hash_of(b"abcd"));
    assert!(q.is_valid());
    assert!(q2.is_valid());
    assert!(q != q2);
}

#[test]
fn operators_on_points() {
    let p = g1_generator();
    let d = p.doubled();
    assert_eq!(&p + &p, d);
    assert_eq!(&d - &p, p);
    let mut t = p;
    t += &p;
    assert_eq!(t, d);
    t -= &d;
    assert!(t.is_zero());
    let q = g2_generator();
    assert_eq!(&q + &q, q.doubled());
    assert!((&q - &q).is_zero());
    let mut u = q;
    u += &q;
    u -= &q;
    assert_eq!(u, q);
}

#[test]
fn multiples_by_numbers_of_any_length() {
    let p = g1_generator();
    let r: [u64; 4] = [
        0xffffffff00000001,
        0x53bda402fffe5bfe,
        0x3339d80809a1d805,
        0x73eda753299d7d48,
    ];
    assert!(G1::mul_by_limbs(&p, &r).is_zero());
    assert!(G2::mul_by_limbs(&g2_generator(), &r).is_zero());
    assert_eq!(G1::mul_by_limbs(&p, &[5u64, 0, 0]), p.doubled().doubled().plus(&p));
    assert!(G1::mul_by_limbs(&p, &[0u64; 2]).is_zero());
    let none: [u64; 0] = [];
    assert!(G1::mul_by_limbs(&p, &none).is_zero());
    // r + 1 takes a point of the group to itself
    let mut r1 = r;
    r1[0] += 1;
    assert_eq!(G1::mul_by_limbs(&p, &r1), p);
}

#[test]
fn the_sum_is_the_chord_rule_and_the_double_the_tangent_rule() {
    let g = g1_generator();
    // two points in Jacobian coordinates with z away from one
    let p = g.doubled().plus(&g);
    let q = g.doubled().doubled().plus(&g);
    assert!(!p.z.is_one());
    assert!(!q.z.is_one());
    let pa = p.normalized();
    let qa = q.normalized();
    // the chord through the affine points
    let lam = qa.y.minus(&pa.y).times(&qa.x.minus(&pa.x).inverse());
    let x3 = lam.squared().minus(&pa.x).minus(&qa.x);
    let y3 = lam.times(&pa.x.minus(&x3)).minus(&pa.y);
    let s = p.plus(&q).normalized();
    assert_eq!(s.x, x3);
    assert_eq!(s.y, y3);
    // the tangent at the affine point
    let three = Fp::from_int(3);
    let lam = three.times(&pa.x.squared()).times(&pa.y.plus(&pa.y).inverse());
    let x3 = lam.squared().minus(&pa.x.plus(&pa.x));
    let y3 = lam.times(&pa.x.minus(&x3)).minus(&pa.y);
    let d = p.doubled().normalized();
    assert_eq!(d.x, x3);
    assert_eq!(d.y, y3);
    // the same rules hold in G2
    let h = g2_generator();
    let p2 = h.doubled().plus(&h);
    let q2 = h.doubled().doubled();
    let pa2 = p2.normalized();
    let qa2 = q2.normalized();
    let lam2 = qa2.y.minus(&pa2.y).times(&qa2.x.minus(&pa2.x).inverse());
    let x32 = lam2.squared().minus(&pa2.x).minus(&qa2.x);
    let y32 = lam2.times(&pa2.x.minus(&x32)).minus(&pa2.y);
    let s2 = p2.plus(&q2).normalized();
    assert_eq!(s2.x, x32);
    assert_eq!(s2.y, y32);
    let three2 = Fp2::new(Fp::from_int(3), Fp::zero());
    let lam2 = three2.times(&pa2.x.squared()).times(&pa2.y.plus(&pa2.y).inverse());
    let x32 = lam2.squared().minus(&pa2.x.plus(&pa2.x));
    let y32 = lam2.times(&pa2.x.minus(&x32)).minus(&pa2.y);
    let d2 = p2.doubled().normalized();
    assert_eq!(d2.x, x32);
    assert_eq!(d2.y, y32);
}

#[test]
fn sums_stay_on_the_curve_and_in_the_group() {
    let g = g1_generator();
    let mut p = g;
    for k in 1..=8 {
        let q = p.doubled().plus(&g);
        assert!(q.is_on_curve());
        assert!(q.is_valid());
        // the sum does not depend on the order or on the coordinates chosen
        assert_eq!(p.plus(&q), q.plus(&p));
        assert_eq!(p.normalized().plus(&q), p.plus(&q.normalized()));
        assert_eq!(p.plus(&q).plus(&g), p.plus(&q.plus(&g)));
        let mut m = G1::zero();
        G1::mul(&mut m, &g, &Fr::from_int((1 << (k + 1)) - 1));
        assert_eq!(m, q);
        p = q;
    }
    let h = g2_generator();
    let a = h.doubled();
    let b = a.plus(&h);
    assert!(b.is_valid());
    assert_eq!(a.plus(&b), b.plus(&a));
    assert_eq!(a.plus(&b).plus(&h), a.plus(&b.plus(&h)));
}

#[test]
fn searching_from_an_abscissa() {
    // From 0 the search passes four abscissas and ends at the generator.
    let mut p = G1::zero();
    assert!(p.set_from_abscissa(&Fp::from_int(0)));
    assert_eq!(p, g1_generator());
    let mut p1 = G1::zero();
    assert!(p1.set_from_abscissa(&Fp::from_int(1)));
    assert_eq!(p1, p);
    assert!(p.set_from_abscissa(&Fp::from_int(5)));
    assert!(p.is_valid());
    let n = p.normalized();
    assert_eq!(n.x.get_str(16), "f520d06a42ce413ba5ecea07c5767a510491af5597bc5235cfd9faea18c4de7124a3d1a380c56d54e283f16d5e497cd");
    assert_eq!(n.y.get_str(16), "9f1d519c2a78597cdc2ffc6bbf62309bab00d89abe265b96a683aef41f89227dd35110534671f13fdefa5c93a6074f8");

    let mut q = G2::zero();
    assert!(q.set_from_abscissa(&Fp2::new(Fp::from_int(0), Fp::from_int(0))));
    assert_eq!(q, g2_generator());
    assert!(q.set_from_abscissa(&Fp2::new(Fp::from_int(7), Fp::from_int(3))));
    assert!(q.is_valid());
    let m = q.normalized();
    assert_eq!(m.x.c0().get_str(16), "9b5f232681624d90c1f4109639bc1dec4dfbefd0726311dc0d3b206390c49a035ddf3bf2c058ffb4524a2dca2b2c6f3");
    assert_eq!(m.x.c1().get_str(16), "1117f30db232dcc1cc1f0dc6495442d787b99f04ab397f206043af71ddc6c1334218a4e9998d03ab2c72df7c3f760a1a");
    assert_eq!(m.y.c0().get_str(16), "3736618498030b0b180f71a98be9ae33afcc19f7239513b58914f80f22c9f62c0b6a7c5c78ca4cf75654e64532436e6");
    assert_eq!(m.y.c1().get_str(16), "1791eb0a959d935bb544f36879fd4d1f4ed03dd746d375c6ff2c2e736e7d9c64ee9a66fe7e63a534cd5ef388b3b1ee44");
}

#[test]
fn hashing_is_the_search_from_the_hashed_abscissa() {
    let mut p = G1::zero();
    let mut q = G1::zero();
    assert!(p.set_hash_of(b"abc"));
    assert!(q.set_from_abscissa(&Fp::hash_point(b"abc")));
    assert_eq!(p.x, q.x);
    assert_eq!(p.y, q.y);
    assert_eq!(p.z, q.z);
    let mut p2 = G2::zero();
    let mut q2 = G2::zero();
    assert!(p2.set_hash_of(b"abc"));
    assert!(q2.set_from_abscissa(&Fp2::hash_point(b"abc")));
    assert_eq!(p2.x, q2.x);
    assert_eq!(p2.y, q2.y);
    assert_eq!(p2.z, q2.z);
}

#[test]
fn points_in_any_coordinates_come_back_from_bytes_and_text() {
    // multiples of the generators have z away from one
    let mut k = Fr::from_int(0);
    k.set_int(123456789);
    let mut p = G1::zero();
    G1::mul(&mut p, &g1_generator(), &k);
    assert!(!p.z.is_one());
    let mut back = G1::zero();
    assert!(back.deserialize(&p.serialize()));
    assert_eq!(back, p);
    assert_eq!(p, back);
    assert!(back.z.is_one());
    assert_eq!(back.x, p.normalized().x);
    assert_eq!(back.y, p.normalized().y);
    for base in [10, 16] {
        let mut t = G1::zero();
        assert!(t.set_str(&p.get_str(base), base));
        assert_eq!(t, p);
        assert!(t.z.is_one());
    }

    let mut q = G2::zero();
    G2::mul(&mut q, &g2_generator(), &k);
    assert!(q.z != Fp2::one());
    let mut qback = G2::zero();
    assert!(qback.deserialize(&q.serialize()));
    assert_eq!(qback, q);
    assert_eq!(q, qback);
    assert!(qback.z == Fp2::one());
    for base in [10, 16] {
        let mut t = G2::zero();
        assert!(t.set_str(&q.get_str(base), base));
        assert_eq!(t, q);
        assert!(t.z == Fp2::one());
    }
}

#[test]
fn the_affine_form_of_a_point_of_the_group_is_of_the_group() {
    let mut p = G1::zero();
    assert!(p.set_hash_of(b"forms"));
    assert!(p.is_valid());
    let n = p.normalized();
    assert!(n.is_valid());
    assert!(n.z.is_one());
    assert_eq!(n, p);
    // the multiples of the two forms are one point
    let k = Fr::from_int(77);
    let mut a = G1::zero();
    let mut b = G1::zero();
    G1::mul(&mut a, &p, &k);
    G1::mul(&mut b, &n, &k);
    assert_eq!(a, b);
    assert_eq!(p.doubled(), n.doubled());
    let mut q = G2::zero();
    assert!(q.set_hash_of(b"forms"));
    let m = q.normalized();
    assert!(m.is_valid());
    assert_eq!(m, q);
    assert_eq!(q.doubled(), m.doubled());
}
