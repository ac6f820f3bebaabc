use holomorphic::cli::{parse_dimensions, Resolution};
use holomorphic::complex::Complex;
use holomorphic::eval::PassthroughFuncs;
use holomorphic::fixed::SCALE;
use holomorphic::parsing::Expr;
use holomorphic::pixels::{bgr_to_rgb, pack_rgb_buffer};
use holomorphic::polynomial::{construct_polynomial, construct_rational_function, eval_polynomial};

fn c(re: i64, im: i64) -> Complex {
    Complex {
        re: re * SCALE,
        im: im * SCALE,
    }
}

#[test]
fn passthrough_supplier_hands_arguments_back() {
    let f = PassthroughFuncs;
    let e = Expr::parse("sin(z)").unwrap();
    let z = c(2, 3);
    assert_eq!(e.evaluate(z, &f), z);
}

#[test]
fn resolution_presets() {
    assert_eq!(Resolution::Hd.to_dimensions(), (1280, 720));
    assert_eq!(Resolution::FullHd.to_dimensions(), (1920, 1080));
    assert_eq!(Resolution::Cga.to_dimensions(), (640, 200));
}

#[test]
fn dimensions_argument_parses() {
    assert_eq!(parse_dimensions("640,480"), Ok((640, 480)));
    assert_eq!(
        parse_dimensions("640x480"),
        Err(String::from("Dimensions must be in format width,height"))
    );
    assert_eq!(
        parse_dimensions("1,2,3"),
        Err(String::from("Dimensions must be in format width,height"))
    );
    assert_eq!(parse_dimensions("a,480"), Err(String::from("Invalid width")));
    assert_eq!(parse_dimensions("640,"), Err(String::from("Invalid height")));
    assert_eq!(
        parse_dimensions("99999999999,2"),
        Err(String::from("Invalid width"))
    );
}

#[test]
fn polynomial_tree_matches_direct_evaluation() {
    let f = PassthroughFuncs;
    // 1 + 2 z + 3 z^2
    let coeffs = vec![1 * SCALE, 2 * SCALE, 3 * SCALE];
    let tree = construct_polynomial(&coeffs);
    for &z in [c(0, 0), c(1, 0), c(2, 1), c(-1, 3)].iter() {
        assert_eq!(tree.evaluate(z, &f), eval_polynomial(&coeffs, z));
    }
    // at z = 2: 1 + 4 + 12 = 17
    assert_eq!(eval_polynomial(&coeffs, c(2, 0)), c(17, 0));
}

#[test]
fn rational_function_guards_near_zero_denominators() {
    // (z + 1) / z
    let r = construct_rational_function(vec![SCALE, SCALE], vec![0, SCALE]);
    // at z = 0 the denominator is zero: the guarded value is zero
    assert_eq!(r.eval(c(0, 0)), Complex { re: 0, im: 0 });
    // at z = 2: 3 / 2
    assert_eq!(
        r.eval(c(2, 0)),
        Complex {
            re: SCALE + SCALE / 2,
            im: 0
        }
    );
}

#[test]
fn wgsl_rendering() {
    let e = Expr::parse("5 + 3 * 2").unwrap();
    assert_eq!(e.to_wgsl(), "(5.0 + (3.0 * 2.0))");
    let e = Expr::parse("abs(z)").unwrap();
    assert_eq!(e.to_wgsl(), "length(coord)");
    let e = Expr::parse("-z").unwrap();
    assert_eq!(e.to_wgsl(), "(-coord)");
    let e = Expr::parse("1.5 ^ 2").unwrap();
    assert_eq!(e.to_wgsl(), "(1.5 ^ 2.0)");
    let e = Expr::parse("-3").unwrap();
    assert_eq!(e.to_wgsl(), "-3.0");
}

#[test]
fn wgsl_rejects_only_the_conjugate() {
    assert!(!Expr::parse("conj(z)").unwrap().wgsl_supported());
    assert!(!Expr::parse("1 + conj(z) * 2").unwrap().wgsl_supported());
    assert!(Expr::parse("sin(z) ^ 2 / abs(z)").unwrap().wgsl_supported());
}

#[test]
fn rgb_packing_for_display() {
    let pix = vec![0x12u8, 0x34, 0x56, 0xFF, 0x00, 0x80];
    assert_eq!(pack_rgb_buffer(&pix), vec![0x123456u32, 0xFF0080]);
}

#[test]
fn bgr_frames_reorder_to_rgb() {
    let bgr = vec![1u8, 2, 3, 10, 20, 30];
    assert_eq!(bgr_to_rgb(&bgr), vec![3u8, 2, 1, 30, 20, 10]);
}
