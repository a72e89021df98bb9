use mcl_rust::{final_exp, miller_loop, pairing, Fp, Fp2, Fr, G1, G2, GT};

fn g1_generator() -> G1 {
    G1::from_str("1 17f1d3a73197d7942695638c4fa9ac0fc3688c4f9774b905a14e3a3f171bac586c55e83ff97a1aeffb3af00adb22c6bb 08b3f481e3aaa0f1a09e30ed741d8ae4fcf5e095d5d00af600db18cb2c04b3edd03cc744a2888ae40caa232946c5e7e1", 16).unwrap()
}

fn g2_generator() -> G2 {
    G2 {
        x: Fp2::new(
            Fp::from_str("024aa2b2f08f0a91260805272dc51051c6e47ad4fa403b02b4510b647ae3d1770bac0326a805bbefd48056c8c121bdb8", 16).unwrap(),
            Fp::from_str("13e02b6052719f607dacd3a088274f65596bd0d09920b61ab5da61bbdc7f5049334cf11213945d57e5ac7d055d042b7e", 16).unwrap(),
        ),
        y: Fp2::new(
            Fp::from_str("0ce5d527727d6e118cc9cdc6da2e351aadfd9baa8cbdd3a76d429a695160d12c923ac9cc3baca289e193548608b82801", 16).unwrap(),
            Fp::from_str("0606c4a02ea734cc32acd2b02bc28b99cb3e287e85a763af267492ab572e99ab3f370d275cec1da1aaa9075ff05f79be", 16).unwrap(),
        ),
        z: Fp2::one(),
    }
}

#[test]
fn pairing_is_bilinear() {
    let p = g1_generator();
    let q = g2_generator();
    let a = Fr::from_str("123456789abcdef", 16).unwrap();
    let mut ap = G1::zero();
    let mut aq = G2::zero();
    G1::mul(&mut ap, &p, &a);
    G2::mul(&mut aq, &q, &a);
    let mut e0 = GT::zero();
    let mut e1 = GT::zero();
    let mut e2 = GT::zero();
    pairing(&mut e0, &p, &q);
    pairing(&mut e1, &ap, &q);
    pairing(&mut e2, &p, &aq);
    assert!(!e0.is_one());
    assert!(!e0.is_zero());
    assert_eq!(e1, e2);
    let mut e0a = GT::zero();
    GT::pow(&mut e0a, &e0, &a);
    assert_eq!(e1, e0a);
}

#[test]
fn pairing_is_bilinear_in_both_arguments_at_once() {
    let mut p = G1::zero();
    let mut q = G2::zero();
    assert!(p.set_hash_of(b"first"));
    assert!(q.set_hash_of(b"second"));
    let a = Fr::from_int(-3);
    let b = Fr::from_int(1000003);
    let mut ap = G1::zero();
    let mut bq = G2::zero();
    G1::mul(&mut ap, &p, &a);
    G2::mul(&mut bq, &q, &b);
    let mut e = GT::zero();
    let mut eab = GT::zero();
    pairing(&mut e, &p, &q);
    pairing(&mut eab, &ap, &bq);
    let mut want = GT::zero();
    GT::pow(&mut want, &e, &a.times(&b));
    assert_eq!(eab, want);
    // e(p1 + p2, q) = e(p1, q) e(p2, q)
    let g = g1_generator();
    let mut e2 = GT::zero();
    let mut esum = GT::zero();
    pairing(&mut e2, &g, &q);
    pairing(&mut esum, &p.plus(&g), &q);
    assert_eq!(esum, e.times(&e2));
}

#[test]
fn pairing_is_final_exp_of_miller_loop() {
    let p = g1_generator();
    let q = g2_generator();
    let mut f = GT::zero();
    let mut e = GT::zero();
    let mut e2 = GT::zero();
    miller_loop(&mut f, &p, &q);
    final_exp(&mut e, &f);
    pairing(&mut e2, &p, &q);
    assert_eq!(e, e2);
    // points in Jacobian coordinates pair as their affine forms
    let mut e3 = GT::zero();
    pairing(&mut e3, &p.doubled(), &q.doubled());
    let mut e4 = GT::zero();
    pairing(&mut e4, &p.doubled().normalized(), &q.doubled().normalized());
    assert_eq!(e3, e4);
}

#[test]
fn pairing_of_the_generators() {
    let mut e = GT::zero();
    pairing(&mut e, &g1_generator(), &g2_generator());
    let s = e.get_str(16);
    let words: Vec<&str> = s.split(' ').collect();
    assert_eq!(words.len(), 12);
    assert_eq!(words[0], "11619b45f61edfe3b47a15fac19442526ff489dcda25e59121d9931438907dfd448299a87dde3a649bdba96e84d54558");
    assert_eq!(words[11], "1454814f3085f0e6602247671bc408bbce2007201536818c901dbd4d2095dd86c1ec8b888e59611f60a301af7776be3d");
}

#[test]
fn pairing_with_the_identity_is_one() {
    let mut e = GT::zero();
    pairing(&mut e, &G1::zero(), &g2_generator());
    assert!(e.is_one());
    pairing(&mut e, &g1_generator(), &G2::zero());
    assert!(e.is_one());
    let mut f = GT::zero();
    miller_loop(&mut f, &G1::zero(), &G2::zero());
    assert!(f.is_one());
}

#[test]
fn miller_loops_are_multiplied_before_one_final_exp() {
    let p = g1_generator();
    let q = g2_generator();
    let mut p2 = G1::zero();
    let mut q2 = G2::zero();
    assert!(p2.set_hash_of(b"p2"));
    assert!(q2.set_hash_of(b"q2"));
    let mut f1 = GT::zero();
    let mut f2 = GT::zero();
    miller_loop(&mut f1, &p, &q);
    miller_loop(&mut f2, &p2, &q2);
    let mut both = GT::zero();
    final_exp(&mut both, &f1.times(&f2));
    let mut e1 = GT::zero();
    let mut e2 = GT::zero();
    pairing(&mut e1, &p, &q);
    pairing(&mut e2, &p2, &q2);
    assert_eq!(both, e1.times(&e2));
    // a pairing check: e(a p, q) e(-p, a q) = 1
    let a = Fr::from_int(77);
    let mut ap = G1::zero();
    let mut aq = G2::zero();
    G1::mul(&mut ap, &p, &a);
    G2::mul(&mut aq, &q, &a);
    miller_loop(&mut f1, &ap, &q);
    miller_loop(&mut f2, &p.negated(), &aq);
    final_exp(&mut both, &f1.times(&f2));
    assert!(both.is_one());
}

#[test]
fn arithmetic_of_the_target_group() {
    let mut e = GT::zero();
    pairing(&mut e, &g1_generator(), &g2_generator());
    assert!(e.is_reduced());
    // the order of the group
    let mut t = GT::zero();
    GT::pow(&mut t, &e, &Fr::from_int(-1));
    assert!(t.times(&e).is_one());
    let mut inv = GT::zero();
    GT::inv(&mut inv, &e);
    assert_eq!(inv, t);
    assert_eq!(e.conjugate(), inv);
    let mut q = GT::zero();
    GT::div(&mut q, &e, &e);
    assert!(q.is_one());
    let mut s = GT::zero();
    let mut m = GT::zero();
    GT::sqr(&mut s, &e);
    GT::mul(&mut m, &e, &e);
    assert_eq!(s, m);
    GT::pow(&mut t, &e, &Fr::from_int(2));
    assert_eq!(t, s);
    GT::pow(&mut t, &e, &Fr::zero());
    assert!(t.is_one());
    GT::pow(&mut t, &e, &Fr::one());
    assert_eq!(t, e);
    GT::pow(&mut t, &e, &Fr::from_int(5));
    assert_eq!(t, s.times(&s).times(&e));
    // the field around the group
    let one = GT::from_int(1);
    assert!(one.is_one());
    assert!(GT::one().is_one());
    assert!(GT::zero().is_zero());
    assert!(!one.is_zero());
    let mut x = GT::zero();
    x.set_int(-3);
    let mut sum = GT::zero();
    GT::add(&mut sum, &x, &GT::from_int(5));
    assert_eq!(sum, GT::from_int(2));
    let two = sum;
    GT::sub(&mut sum, &two, &GT::from_int(5));
    assert_eq!(sum, x);
    GT::neg(&mut sum, &x);
    assert_eq!(sum, GT::from_int(3));
    assert_eq!(&x * &x, GT::from_int(9));
    assert_eq!(&(&e + &x) - &x, e);
    assert_eq!(&(&e * &x) / &x, e);
    let mut y = e;
    y += &x;
    y -= &x;
    y *= &x;
    y /= &x;
    assert_eq!(y, e);
    let mut zi = GT::one();
    GT::inv(&mut zi, &GT::zero());
    assert!(zi.is_zero());
    let mut c = e;
    c.clear();
    assert!(c.is_zero());
    assert!(GT::default().is_zero());
    assert_eq!(GT::uninit(), GT::zero());
    let n: [u64; 2] = [3, 0];
    assert_eq!(GT::pow_by_limbs(&e, &n), s.times(&e));
}

#[test]
fn bytes_and_text_of_the_target_group() {
    let mut e = GT::zero();
    pairing(&mut e, &g1_generator(), &g2_generator());
    let buf = e.serialize();
    assert_eq!(buf.len(), 576);
    let mut back = GT::zero();
    assert!(back.deserialize(&buf));
    assert_eq!(back, e);
    assert!(!back.deserialize(&buf[0..575]));
    let mut bad = buf.clone();
    bad[575] = 0xff;
    assert!(!back.deserialize(&bad));
    assert!(!back.deserialize(&[0xffu8; 576]));
    assert_eq!(back, e);
    assert!(back.deserialize(&[0u8; 576]));
    assert!(back.is_zero());
    let seven = GT::from_int(7);
    assert_eq!(seven.get_str(10), "7 0 0 0 0 0 0 0 0 0 0 0");
    assert_eq!(GT::from_str("7 0 0 0 0 0 0 0 0 0 0 0", 10).unwrap(), seven);
    assert!(GT::from_str("7 0 0 0 0 0 0 0 0 0 0", 10).is_none());
    assert!(GT::from_str("7 0 0 0 0 0 0 0 0 0 0 0 0", 10).is_none());
    assert!(GT::from_str("7 0 0 0 0 0 x 0 0 0 0 0", 10).is_none());
    for base in [10, 16] {
        let s = e.get_str(base);
        assert_eq!(GT::from_str(&s, base).unwrap(), e);
    }
    assert_eq!(seven.serialize()[0], 7);
    assert!(seven.serialize()[1..].iter().all(|b| *b == 0));
}
