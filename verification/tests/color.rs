use fractal::color::{
    color_range_linear, try_color_range_linear, PreconditionError, AEBLUE_U8, BLACK_U8, WHITE_U8,
};

#[test]
fn test_linear_two() {
    let black = [0, 0, 0, 255];
    let white = [255, 255, 255, 255];
    let range = color_range_linear(black, white, 2);
    assert_eq!(black, range[0]);
    assert_eq!(white, range[1]);
}

#[test]
fn test_linear_full_spectrum() {
    let black = [0, 0, 0, 255];
    let white = [255, 255, 255, 255];
    let range = color_range_linear(black, white, 256);
    assert_eq!(range.len(), 256);
    assert_eq!(range[0], black);
    assert_eq!(range[255], white);
    assert_eq!(range[10], [10, 10, 10, 255]);
}

#[test]
fn test_linear_half_spectrum() {
    let black = [0, 0, 0, 255];
    let white = [255, 255, 255, 255];
    let range = color_range_linear(black, white, 128);
    assert_eq!(range.len(), 128);
    assert_eq!(range[0], black);
    assert_eq!(range[127], white);
    assert_eq!(range[10], [20, 20, 20, 255]);
}

#[test]
fn test_linear_cuts_down_rising_channels() {
    let range = color_range_linear([0, 0, 0, 0], [10, 1, 255, 3], 4);
    assert_eq!(
        range,
        vec![[0, 0, 0, 0], [3, 0, 85, 1], [6, 0, 170, 2], [10, 1, 255, 3]]
    );
}

#[test]
fn test_linear_cuts_down_falling_channels() {
    let range = color_range_linear([10, 1, 255, 3], [0, 0, 0, 0], 4);
    assert_eq!(
        range,
        vec![[10, 1, 255, 3], [6, 0, 170, 2], [3, 0, 85, 1], [0, 0, 0, 0]]
    );
}

#[test]
fn test_linear_channels_move_apart() {
    let range = color_range_linear([200, 10, 7, 255], [100, 20, 7, 0], 5);
    assert_eq!(
        range,
        vec![
            [200, 10, 7, 255],
            [175, 12, 7, 191],
            [150, 15, 7, 127],
            [125, 17, 7, 63],
            [100, 20, 7, 0]
        ]
    );
}

#[test]
fn test_linear_same_ends() {
    let range = color_range_linear(AEBLUE_U8, AEBLUE_U8, 7);
    assert_eq!(range.len(), 7);
    for color in range {
        assert_eq!(color, [0, 0, 48, 255]);
    }
}

#[test]
fn test_linear_more_colors_than_levels() {
    let range = color_range_linear(BLACK_U8, [3, 3, 3, 255], 1000);
    assert_eq!(range.len(), 1000);
    assert_eq!(range[0], [0, 0, 0, 255]);
    assert_eq!(range[332], [0, 0, 0, 255]);
    assert_eq!(range[333], [1, 1, 1, 255]);
    assert_eq!(range[665], [1, 1, 1, 255]);
    assert_eq!(range[666], [2, 2, 2, 255]);
    assert_eq!(range[998], [2, 2, 2, 255]);
    assert_eq!(range[999], [3, 3, 3, 255]);
}

#[test]
fn test_linear_ends_are_exact() {
    let firsts = [[0, 17, 255, 3], [255, 254, 1, 0], [90, 90, 90, 90]];
    let lasts = [[1, 200, 0, 250], [0, 0, 0, 0], [91, 89, 90, 255]];
    for first in firsts {
        for last in lasts {
            for count in 2..60 {
                let range = color_range_linear(first, last, count);
                assert_eq!(range.len(), count);
                assert_eq!(range[0], first);
                assert_eq!(range[count - 1], last);
            }
        }
    }
}

#[test]
fn test_linear_is_monotonic() {
    let first = [0, 255, 40, 200];
    let last = [255, 0, 41, 100];
    let range = color_range_linear(first, last, 300);
    for i in 1..range.len() {
        assert!(range[i - 1][0] <= range[i][0]);
        assert!(range[i - 1][1] >= range[i][1]);
        assert!(range[i - 1][2] <= range[i][2]);
        assert!(range[i - 1][3] >= range[i][3]);
    }
}

#[test]
fn test_try_linear_zero() {
    let outcome = try_color_range_linear(BLACK_U8, WHITE_U8, 0);
    assert_eq!(outcome, Err(PreconditionError::CountTooSmall(0)));
}

#[test]
fn test_try_linear_one() {
    let outcome = try_color_range_linear(BLACK_U8, WHITE_U8, 1);
    assert_eq!(outcome, Err(PreconditionError::CountTooSmall(1)));
}

#[test]
fn test_try_linear_two() {
    let outcome = try_color_range_linear(BLACK_U8, WHITE_U8, 2);
    assert_eq!(outcome, Ok(vec![[0, 0, 0, 255], [255, 255, 255, 255]]));
}

#[test]
fn test_try_linear_agrees() {
    let first = [12, 250, 0, 255];
    let last = [240, 3, 0, 128];
    for count in 2..40 {
        assert_eq!(
            try_color_range_linear(first, last, count),
            Ok(color_range_linear(first, last, count))
        );
    }
}

#[test]
fn test_color_constants() {
    assert_eq!(AEBLUE_U8, [0, 0, 48, 255]);
    assert_eq!(BLACK_U8, [0, 0, 0, 255]);
    assert_eq!(WHITE_U8, [255, 255, 255, 255]);
}
