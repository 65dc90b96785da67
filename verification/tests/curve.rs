use colorctl::cli::{parse_curve_points, CurveError};
use colorctl::text::IntErrorKind;
use colorctl::utils::pct;

#[test]
fn curve_points_parse() {
    assert_eq!(
        parse_curve_points("30:25,50:45,70:75,85:100"),
        Ok([(30, 64), (50, 115), (70, 192), (85, 255)])
    );
    assert_eq!(
        parse_curve_points(" 30 : 20 , 50:40,70:70 ,85:100 "),
        Ok([(30, pct(20)), (50, pct(40)), (70, pct(70)), (85, pct(100))])
    );
    assert_eq!(
        parse_curve_points("+0:0,1:1,2:+2,255:150"),
        Ok([(0, 0), (1, 3), (2, 6), (255, 255)])
    );
}

#[test]
fn curve_points_count_errors() {
    assert_eq!(parse_curve_points("30:25,50:45,70:75"), Err(CurveError::TooFewPoints(3)));
    assert_eq!(parse_curve_points("30:25"), Err(CurveError::TooFewPoints(1)));
    assert_eq!(
        parse_curve_points("30:25,50:45,70:75,85:100,90:100"),
        Err(CurveError::TooManyPoints)
    );
    assert_eq!(
        parse_curve_points("30:25,50:45,70:75,85:100,"),
        Err(CurveError::TooManyPoints)
    );
}

#[test]
fn curve_points_point_errors() {
    assert_eq!(parse_curve_points(""), Err(CurveError::InvalidPoint(String::new())));
    assert_eq!(
        parse_curve_points("30:25:1,50:45,70:75,85:100"),
        Err(CurveError::InvalidPoint("30:25:1".to_string()))
    );
    assert_eq!(
        parse_curve_points("30:25, ,70:75,85:100"),
        Err(CurveError::InvalidPoint(String::new()))
    );
    assert_eq!(
        parse_curve_points("abc:25,50:45,70:75,85:100"),
        Err(CurveError::InvalidTemperature("abc".to_string(), IntErrorKind::InvalidDigit))
    );
    assert_eq!(
        parse_curve_points("30:25,300:45,70:75,85:100"),
        Err(CurveError::InvalidTemperature("300".to_string(), IntErrorKind::PosOverflow))
    );
    assert_eq!(
        parse_curve_points("30: ,50:45,70:75,85:100"),
        Err(CurveError::InvalidSpeed(String::new(), IntErrorKind::Empty))
    );
    assert_eq!(
        parse_curve_points("30:25,50:45,70:-5,85:100"),
        Err(CurveError::InvalidSpeed("-5".to_string(), IntErrorKind::InvalidDigit))
    );
    // the first bad point decides, even when there are too few points
    assert_eq!(
        parse_curve_points("30:x,50:45"),
        Err(CurveError::InvalidSpeed("x".to_string(), IntErrorKind::InvalidDigit))
    );
}
