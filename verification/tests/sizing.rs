use ascii_image::sizing::{
    automatic_size, requested_size, trim_to_wanted, SizeRequest, Trimmed, DEFAULT_HEIGHT,
    DEFAULT_WIDTH, TRIM_BUFFER,
};
use ascii_image::RectSize;

#[test]
fn a_width_and_a_height_are_a_size() {
    assert_eq!(
        SizeRequest::Exact(RectSize { width: 80, height: 24 }),
        requested_size(Some(80), Some(24))
    );
    assert_eq!(
        SizeRequest::Exact(RectSize { width: 0, height: 0 }),
        requested_size(Some(0), Some(0))
    );
}

#[test]
fn neither_leaves_the_size_to_be_found_out() {
    assert_eq!(SizeRequest::Automatic, requested_size(None, None));
}

#[test]
fn one_alone_is_no_size() {
    assert_eq!(SizeRequest::Incomplete, requested_size(Some(80), None));
    assert_eq!(SizeRequest::Incomplete, requested_size(None, Some(24)));
}

#[test]
fn the_terminal_gives_the_size_and_else_the_default() {
    assert_eq!(
        RectSize { width: 100, height: 30 },
        automatic_size(Some(RectSize { width: 100, height: 30 }))
    );
    assert_eq!(RectSize { width: 128, height: 64 }, automatic_size(None));
    assert_eq!(128, DEFAULT_WIDTH);
    assert_eq!(64, DEFAULT_HEIGHT);
}

#[test]
fn a_wanted_width_beyond_the_buffer_takes_the_wanted_height() {
    assert_eq!(5, TRIM_BUFFER);
    let output = RectSize { width: 100, height: 50 };
    assert_eq!(
        (RectSize { width: 100, height: 20 }, Trimmed::Height),
        trim_to_wanted(RectSize { width: 106, height: 20 }, output)
    );
    assert_eq!(
        (RectSize { width: 100, height: 90 }, Trimmed::Height),
        trim_to_wanted(RectSize { width: 400, height: 90 }, output)
    );
}

#[test]
fn a_wanted_height_beyond_the_buffer_takes_the_wanted_width() {
    let output = RectSize { width: 100, height: 50 };
    assert_eq!(
        (RectSize { width: 30, height: 50 }, Trimmed::Width),
        trim_to_wanted(RectSize { width: 30, height: 56 }, output)
    );
    assert_eq!(
        (RectSize { width: 105, height: 50 }, Trimmed::Width),
        trim_to_wanted(RectSize { width: 105, height: 56 }, output)
    );
}

#[test]
fn a_wanted_size_within_the_buffer_leaves_the_grid() {
    let output = RectSize { width: 100, height: 50 };
    assert_eq!(
        (output, Trimmed::Neither),
        trim_to_wanted(RectSize { width: 105, height: 55 }, output)
    );
    assert_eq!((output, Trimmed::Neither), trim_to_wanted(RectSize { width: 0, height: 0 }, output));
}

#[test]
fn the_buffer_does_not_wrap_at_the_largest_size() {
    let output = RectSize { width: usize::MAX - 2, height: usize::MAX };
    assert_eq!(
        (output, Trimmed::Neither),
        trim_to_wanted(RectSize { width: usize::MAX, height: usize::MAX }, output)
    );
}
