use central_fill::{
    default_k, default_world_xy, Config, InputError, PromptConfig, DEFAULT_FACILITY_COUNT,
};

#[test]
fn valid_get_facility_count() {
    let x_val = 10;
    let y_val = 10;
    let p = PromptConfig::new(-x_val, x_val, -y_val, y_val);

    assert_eq!(DEFAULT_FACILITY_COUNT, p.get_facility(Ok("".to_string())));
    assert_eq!(DEFAULT_FACILITY_COUNT, p.get_facility(Ok("-25".to_string())));
    assert_eq!(35, p.get_facility(Ok("35".to_string())));
}

#[test]
fn facility_count_ignores_surrounding_white_space() {
    let p = PromptConfig::new(-10, 10, -10, 10);
    assert_eq!(35, p.get_facility(Ok("  35\t\n".to_string())));
    assert_eq!(7, p.get_facility(Ok("+7".to_string())));
}

#[test]
fn facility_count_defaults_on_bad_input() {
    let p = PromptConfig::new(-10, 10, -10, 10);
    assert_eq!(DEFAULT_FACILITY_COUNT, p.get_facility(Ok("   ".to_string())));
    assert_eq!(DEFAULT_FACILITY_COUNT, p.get_facility(Ok("3 5".to_string())));
    assert_eq!(DEFAULT_FACILITY_COUNT, p.get_facility(Ok("99999999999999999999999".to_string())));
    assert_eq!(DEFAULT_FACILITY_COUNT, p.get_facility(Err(InputError::Unreadable)));
}

#[test]
fn coordinates_are_read_around_a_comma() {
    let p = PromptConfig::new(-10, 10, -10, 10);
    assert_eq!(Ok((3, -4)), p.get_coordinates(Ok("3, -4".to_string())));
    assert_eq!(Ok((7, 8)), p.get_coordinates(Ok(" +7 ,  8 , 9".to_string())));
    assert_eq!(Ok((0, 0)), p.get_coordinates(Ok("0,0".to_string())));
}

#[test]
fn coordinates_without_comma_are_missing() {
    let p = PromptConfig::new(-10, 10, -10, 10);
    assert_eq!(Err(InputError::MissingCoordinate), p.get_coordinates(Ok("3".to_string())));
    assert_eq!(Err(InputError::MissingCoordinate), p.get_coordinates(Ok("".to_string())));
}

#[test]
fn coordinates_that_are_no_numbers_are_refused() {
    let p = PromptConfig::new(-10, 10, -10, 10);
    assert_eq!(Err(InputError::InvalidNumber), p.get_coordinates(Ok("a,b".to_string())));
    assert_eq!(Err(InputError::InvalidNumber), p.get_coordinates(Ok("1,".to_string())));
    assert_eq!(
        Err(InputError::InvalidNumber),
        p.get_coordinates(Ok("1, 9223372036854775808".to_string()))
    );
    assert_eq!(
        Ok((-9223372036854775808, 1)),
        p.get_coordinates(Ok("-9223372036854775808, 1".to_string()))
    );
}

#[test]
fn unreadable_input_keeps_its_error() {
    let p = PromptConfig::new(-10, 10, -10, 10);
    assert_eq!(Err(InputError::Unreadable), p.get_coordinates(Err(InputError::Unreadable)));
}

#[test]
fn relative_coordinates_become_absolute() {
    let p = PromptConfig::new(-10, 10, -5, 5);
    assert_eq!(Some((10, 5)), p.to_absolute(0, 0));
    assert_eq!(Some((0, 0)), p.to_absolute(-10, -5));
    assert_eq!(Some((20, 10)), p.to_absolute(10, 5));
    assert_eq!(None, p.to_absolute(11, 0));
    assert_eq!(None, p.to_absolute(0, -6));
}

#[test]
fn config_defaults() {
    assert_eq!(21, default_world_xy());
    assert_eq!(3, default_k());
}

#[test]
fn prompt_bounds_are_centred() {
    let c = Config { world_x: 21, world_y: 8, k: 3 };
    let p = c.prompt_config();
    assert_eq!((-10, 10), (p.min_world_x(), p.max_world_x()));
    assert_eq!((-3, 3), (p.min_world_y(), p.max_world_y()));
}
