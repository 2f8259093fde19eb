use median_filter::parameter::table;
use median_filter::{ParameterType, RawParameters};

#[test]
fn index_round_trip() {
    for index in 0..ParameterType::COUNT as i32 {
        let parameter = ParameterType::try_from(index).unwrap();
        assert_eq!(i32::from(parameter), index);
    }
    for parameter in [ParameterType::WetDry, ParameterType::WindowSize] {
        assert_eq!(ParameterType::try_from(i32::from(parameter)), Ok(parameter));
    }
}

#[test]
fn places_of_the_controls() {
    assert_eq!(ParameterType::try_from(0), Ok(ParameterType::WetDry));
    assert_eq!(ParameterType::try_from(1), Ok(ParameterType::WindowSize));
    assert_eq!(i32::from(ParameterType::WetDry), 0);
    assert_eq!(i32::from(ParameterType::WindowSize), 1);
    let into: i32 = ParameterType::WindowSize.into();
    assert_eq!(into, 1);
}

#[test]
fn places_without_a_control() {
    for index in [2, 3, 100, -1, -2, i32::MAX, i32::MIN] {
        assert_eq!(ParameterType::try_from(index), Err(()));
    }
}

#[test]
fn names_of_the_controls() {
    assert_eq!(ParameterType::WetDry.to_string(), "Wet/Dry");
    assert_eq!(ParameterType::WindowSize.to_string(), "Window Size");
}

#[test]
fn defaults_are_one_half() {
    assert_eq!(ParameterType::get_default(ParameterType::WetDry), 0.5f32.to_bits());
    assert_eq!(ParameterType::get_default(ParameterType::WindowSize), 0.5f32.to_bits());
}

#[test]
fn table_is_dense_and_agrees_with_the_controls() {
    let rows = table();
    assert_eq!(rows.len(), ParameterType::COUNT);
    for (place, row) in rows.iter().enumerate() {
        assert_eq!(row.index, place as i32);
        assert_eq!(i32::from(row.parameter), row.index);
        assert_eq!(row.parameter.to_string(), row.name);
        assert_eq!(ParameterType::get_default(row.parameter), row.default_bits);
        let value = f32::from_bits(row.default_bits);
        assert!((0.0..=1.0).contains(&value));
        let described = row.parameter.descriptor();
        assert_eq!(described.index, row.index);
        assert_eq!(described.name, row.name);
    }
}

#[test]
fn names_by_place() {
    let storage = RawParameters::default();
    assert_eq!(storage.get_parameter_name(0), "Wet/Dry");
    assert_eq!(storage.get_parameter_name(1), "Window Size");
    assert_eq!(storage.get_parameter_name(2), "");
    assert_eq!(storage.get_parameter_name(-1), "");
}
