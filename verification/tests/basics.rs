use geoengine_kernel::float_bits::Real;
use geoengine_kernel::text::{
    cut_last_slash, decimal_text, join, join_path, parse_isize, sibling, text_precedes,
};

fn bits_of(value: f64) -> Real {
    Real { bits: value.to_bits() }
}

#[test]
fn numbers_have_a_decimal_notation() {
    for number in [0, 7, 10, 409, usize::MAX] {
        assert_eq!(decimal_text(number), number.to_string());
        assert_eq!(parse_isize(&decimal_text(number)), number.to_string().parse().ok());
    }
}

#[test]
fn texts_are_joined() {
    let parts = |texts: &[&str]| texts.iter().map(|t| t.to_string()).collect::<Vec<String>>();
    for list in [parts(&[]), parts(&["a"]), parts(&["a", "", "b"])] {
        assert_eq!(join(&list, "/"), list.join("/"));
    }
}

#[test]
fn paths_are_joined() {
    for (base, path) in [("a", "b"), ("a/", "b"), ("", "b"), ("a", "/b"), ("a", ""), ("/", "b/c")] {
        assert_eq!(
            join_path(base, path),
            std::path::Path::new(base).join(path).to_str().unwrap()
        );
    }
}

#[test]
fn file_names_are_replaced() {
    let paths = [
        "foo/bar.tif", "bar.tif", "/bar.tif", "a/b/c", "", "/", "//", ".", "./", "./.", "./a",
        "././a", "..", "../", "../a", "a/..", "a/../b", "a/", "a//", "a/.", "a/./", "a/./.", "a/./b",
        "a//b", "//a", "/.", "/..", "/./a", "/a/", "/a/b/.", ".a", ".a/b", "a./b", "...", "a/...",
        "ä/ö",
    ];
    for path in paths {
        for name in ["new", "", ".", "/new", "a/b"] {
            assert_eq!(
                sibling(path, name),
                std::path::Path::new(path).with_file_name(name).to_str().unwrap(),
                "{} {}",
                path,
                name
            );
        }
    }
}

#[test]
fn the_last_part_is_cut_off() {
    for text in ["a/b/c", "a", "/a", "a/", "ä/ö"] {
        assert_eq!(
            cut_last_slash(text),
            text.rsplit_once('/').map(|(head, _)| head.to_string())
        );
    }
}

#[test]
fn texts_are_ordered() {
    for (a, b) in [("a", "b"), ("", "a"), ("a", "ab"), ("b", "ab"), ("a", "a"), ("z", "ä")] {
        assert_eq!(text_precedes(a, b), a < b);
        assert_eq!(text_precedes(b, a), b < a);
    }
}

#[test]
fn numbers_are_ordered() {
    let values = [
        f64::NEG_INFINITY,
        -1.5,
        -f64::MIN_POSITIVE,
        -0.0,
        0.0,
        5e-324,
        1.0,
        f64::MAX,
        f64::INFINITY,
        f64::NAN,
    ];
    for a in values {
        assert_eq!(bits_of(a).is_nan(), a.is_nan());
        for b in values {
            assert_eq!(bits_of(a).less_or_equal(bits_of(b)), a <= b);
            assert_eq!(bits_of(a).same_number(bits_of(b)), a == b);
            let min = f64::from_bits(bits_of(a).min(bits_of(b)).bits);
            let max = f64::from_bits(bits_of(a).max(bits_of(b)).bits);
            assert!(min == a.min(b) || min.is_nan() && a.is_nan() && b.is_nan());
            assert!(max == a.max(b) || max.is_nan() && a.is_nan() && b.is_nan());
        }
    }
    assert_eq!(Real::infinity(), bits_of(f64::INFINITY));
    assert_eq!(Real::neg_infinity(), bits_of(f64::NEG_INFINITY));
    assert_eq!(Real::zero(), bits_of(0.0));
}
