use gf256::field::GF256;
use gf256::poly::{poly_mul, Poly};

const ALL: [Poly; 30] = [
    Poly::Poly11b,
    Poly::Poly11d,
    Poly::Poly12b,
    Poly::Poly12d,
    Poly::Poly139,
    Poly::Poly13f,
    Poly::Poly14d,
    Poly::Poly15f,
    Poly::Poly163,
    Poly::Poly165,
    Poly::Poly169,
    Poly::Poly171,
    Poly::Poly177,
    Poly::Poly17b,
    Poly::Poly187,
    Poly::Poly18b,
    Poly::Poly18d,
    Poly::Poly19f,
    Poly::Poly1a3,
    Poly::Poly1a9,
    Poly::Poly1b1,
    Poly::Poly1bd,
    Poly::Poly1c3,
    Poly::Poly1cf,
    Poly::Poly1d7,
    Poly::Poly1dd,
    Poly::Poly1e7,
    Poly::Poly1f3,
    Poly::Poly1f5,
    Poly::Poly1f9,
];

#[test]
fn it_field_new() {
    let f = GF256::new(Poly::Poly11b);
    println!("{f:?}");

    let a = f.u8(1);
    let b = f.u8(2);

    println!("1 * 2 = {}", (a * b).val());
    println!("1 / 2 = {}", (a / b).val());
    println!("1 + 2 = {}", (a + b).val());
    println!("1 - 2 = {}", (a - b).val());
    assert_eq!((a * b).val(), 2);
    assert_eq!((a / b).val(), 141);
    assert_eq!((a + b).val(), 3);
    assert_eq!((a - b).val(), 3);
}

#[test]
fn elem_matches_u8() {
    let f = GF256::new(Poly::Poly11d);
    for x in 0..=255u8 {
        assert_eq!(f.elem(x).val(), x);
        assert_eq!(f.u8(x).val(), x);
    }
}

#[test]
fn catalog_entries() {
    assert_eq!(Poly::Poly11b.coefficients(), 0x1b);
    assert_eq!(Poly::Poly11b.generator(), 3);
    assert_eq!(Poly::Poly11d.coefficients(), 0x1d);
    assert_eq!(Poly::Poly11d.generator(), 2);
    assert_eq!(Poly::Poly17b.generator(), 9);
    assert_eq!(Poly::Poly1bd.generator(), 7);
    assert_eq!(Poly::Poly1f9.coefficients(), 0xf9);
    assert_eq!(Poly::Poly1f9.generator(), 3);
}

#[test]
fn poly_mul_known_products() {
    // The worked example of the AES field.
    assert_eq!(poly_mul(0x57, 0x83, Poly::Poly11b), 0xc1);
    assert_eq!(poly_mul(0x57, 0x13, Poly::Poly11b), 0xfe);
    // x * x^7 = x^8, which reduces to the stored coefficients.
    assert_eq!(poly_mul(0x02, 0x80, Poly::Poly11b), 0x1b);
    assert_eq!(poly_mul(0x80, 0x02, Poly::Poly11d), 0x1d);
    assert_eq!(poly_mul(0x03, 0x03, Poly::Poly11b), 0x05);
    for x in 0..=255u8 {
        assert_eq!(poly_mul(x, 1, Poly::Poly163), x);
        assert_eq!(poly_mul(x, 0, Poly::Poly163), 0);
        assert_eq!(poly_mul(0, x, Poly::Poly163), 0);
    }
}

#[test]
fn generator_visits_every_nonzero_byte_once() {
    for p in ALL {
        let g = p.generator();
        let mut seen = [false; 256];
        let mut x: u8 = 1;
        for _ in 0..255 {
            assert!(x != 0);
            assert!(!seen[x as usize]);
            seen[x as usize] = true;
            x = poly_mul(x, g, p);
        }
        assert_eq!(x, 1);
        assert!(seen[1..].iter().all(|s| *s));
    }
}

#[test]
fn table_product_matches_polynomial_product() {
    for p in ALL {
        let f = GF256::new(p);
        for a in 0..=255u8 {
            for b in 0..=255u8 {
                assert_eq!((f.u8(a) * f.u8(b)).val(), poly_mul(a, b, p));
            }
        }
    }
}

#[test]
fn add_self_is_zero() {
    let f = GF256::new(Poly::Poly12b);
    for a in 0..=255u8 {
        assert_eq!((f.u8(a) + f.u8(a)).val(), 0);
        assert_eq!((f.u8(a) - f.u8(a)).val(), 0);
    }
    assert_eq!((f.u8(0x0f) + f.u8(0xf0)).val(), 0xff);
    assert_eq!((f.u8(0x0f) - f.u8(0xf0)).val(), 0xff);
}

#[test]
fn one_is_identity_and_zero_absorbs() {
    for p in ALL {
        let f = GF256::new(p);
        for a in 0..=255u8 {
            assert_eq!((f.u8(a) * f.u8(1)).val(), a);
            assert_eq!((f.u8(a) * f.u8(0)).val(), 0);
            assert_eq!((f.u8(0) * f.u8(a)).val(), 0);
        }
    }
}

#[test]
fn division_inverts_multiplication() {
    for p in [Poly::Poly11b, Poly::Poly11d, Poly::Poly17b, Poly::Poly1f9] {
        let f = GF256::new(p);
        for a in 1..=255u8 {
            for b in 1..=255u8 {
                let q = (f.u8(a) * f.u8(b)) / f.u8(b);
                assert_eq!(q.val(), a);
            }
            assert_eq!((f.u8(0) / f.u8(a)).val(), 0);
            let inv = f.u8(1) / f.u8(a);
            assert_eq!((inv * f.u8(a)).val(), 1);
        }
    }
}

#[test]
fn division_by_zero_is_refused() {
    let f = GF256::new(Poly::Poly11b);
    for a in 0..=255u8 {
        assert!(f.u8(a).checked_div(f.u8(0)).is_none());
    }
    let q = f.u8(1).checked_div(f.u8(2));
    assert_eq!(q.map(|e| e.val()), Some(141));
}

#[test]
fn inverse_of_two_in_aes_field() {
    let f = GF256::new(Poly::Poly11b);
    // 1/2 = 2^254 = 0x8d, and 0x8d * 2 = 1.
    assert_eq!((f.u8(1) / f.u8(2)).val(), 0x8d);
    assert_eq!((f.u8(0x8d) * f.u8(2)).val(), 1);
    assert_eq!((f.u8(3) * f.u8(3)).val(), 5);
    assert_eq!((f.u8(0x57) * f.u8(0x83)).val(), 0xc1);
}
