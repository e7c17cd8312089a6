use raytrace::color::{mult_u8, resolve_pixel, sky_color, Color};

#[test]
fn test_mult_colors() {
    let left = Color {
        r: 0xAA,
        g: 0x55,
        b: 0x22,
    };

    assert_eq!(
        left.mul(left),
        Color {
            r: 113,
            g: 28,
            b: 4,
        },
    )
}

#[test]
fn test_mult_u8_exact() {
    assert_eq!(mult_u8(0xAA, 0xAA), 113);
    assert_eq!(mult_u8(0x55, 0x55), 28);
    assert_eq!(mult_u8(0x22, 0x22), 4);
    assert_eq!(mult_u8(255, 255), 255);
    assert_eq!(mult_u8(0, 255), 0);
    assert_eq!(mult_u8(255, 1), 1);
    assert_eq!(mult_u8(1, 254), 0);
}

#[test]
fn test_mult_white_identity() {
    let c = Color { r: 17, g: 200, b: 99 };
    let white = Color { r: 255, g: 255, b: 255 };
    assert_eq!(c.mul(white), c);
}

#[test]
fn test_add_plain() {
    let a = Color { r: 10, g: 20, b: 30 };
    let b = Color { r: 1, g: 2, b: 3 };
    assert_eq!(a.add(b), Color { r: 11, g: 22, b: 33 });
}

#[test]
fn test_add_wraps() {
    let a = Color { r: 200, g: 100, b: 255 };
    let b = Color { r: 100, g: 200, b: 1 };
    assert_eq!(a.add(b), Color { r: 44, g: 44, b: 0 });
}

#[test]
fn test_sky_color_value() {
    assert_eq!(
        sky_color(),
        Color {
            r: 0x99,
            g: 0xCC,
            b: 0xFF,
        },
    );
}

#[test]
fn test_resolve_pixel_sky_fallback() {
    assert_eq!(
        resolve_pixel(None),
        Color {
            r: 0x99,
            g: 0xCC,
            b: 0xFF,
        },
    );
}

#[test]
fn test_resolve_pixel_keeps_hit() {
    let hit = Color { r: 1, g: 2, b: 3 };
    assert_eq!(resolve_pixel(Some(hit)), hit);
}
