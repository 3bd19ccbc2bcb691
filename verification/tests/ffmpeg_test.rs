use tomegane::error::{Error, ErrorKind};
use tomegane::extract::ffmpeg::{build_video_filter, CropRect};

#[test]
fn parse_crop_rejects_invalid_specs() {
    assert!(CropRect::parse("1,2,3").is_err());
    assert!(CropRect::parse("1,2,0,4").is_err());
    assert!(CropRect::parse("a,2,3,4").is_err());
}

#[test]
fn parse_crop_reads_fields_with_whitespace() {
    let c = CropRect::parse(" 10, 20 ,+30,\t40 ").unwrap();
    assert_eq!(c, CropRect { x: 10, y: 20, width: 30, height: 40 });
    let big = CropRect::parse("0,0,4294967295,1").unwrap();
    assert_eq!(big.width, u32::MAX);
}

#[test]
fn parse_crop_error_messages_name_the_problem() {
    match CropRect::parse("1,2,3") {
        Err(Error::InvalidCrop(m)) => assert_eq!(m, "Invalid crop '1,2,3'. Expected format: x,y,w,h"),
        other => panic!("unexpected {other:?}"),
    }
    match CropRect::parse("1,-2,3,4") {
        Err(Error::InvalidCrop(m)) => assert_eq!(m, "Invalid crop y value in '1,-2,3,4'"),
        other => panic!("unexpected {other:?}"),
    }
    match CropRect::parse("1,2,4294967296,4") {
        Err(Error::InvalidCrop(m)) => assert_eq!(m, "Invalid crop width value in '1,2,4294967296,4'"),
        other => panic!("unexpected {other:?}"),
    }
    match CropRect::parse("1,2,3,") {
        Err(Error::InvalidCrop(m)) => assert_eq!(m, "Invalid crop height value in '1,2,3,'"),
        other => panic!("unexpected {other:?}"),
    }
    match CropRect::parse("1,2,0,4") {
        Err(e) => {
            assert_eq!(e.kind(), ErrorKind::InvalidCrop);
            assert_eq!(e.code(), "invalid_crop");
            match e {
                Error::InvalidCrop(m) => assert_eq!(
                    m,
                    "Invalid crop '1,2,0,4'. Width and height must be greater than zero"
                ),
                other => panic!("unexpected {other:?}"),
            }
        }
        Ok(c) => panic!("unexpected {c:?}"),
    }
    match CropRect::parse("a,b,c,d,e") {
        Err(Error::InvalidCrop(m)) => assert!(m.contains("Expected format")),
        other => panic!("unexpected {other:?}"),
    }
}

#[test]
fn crop_filter_expression_orders_size_then_offset() {
    let c = CropRect { x: 7, y: 0, width: 1280, height: 720 };
    assert_eq!(c.filter_expr(), "crop=1280:720:7:0");
}

#[test]
fn video_filter_puts_crop_before_fps() {
    let c = CropRect { x: 1, y: 2, width: 3, height: 4 };
    assert_eq!(build_video_filter("2", Some(c)), "crop=3:4:1:2,fps=2");
    assert_eq!(build_video_filter("0.5", None), "fps=0.5");
}
