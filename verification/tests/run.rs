//! Settings, scenario selection, the identifier of a measurement, and the
//! plan of a benchmark.

use opti_set_int::run::{count_of_bits, plan_runs, scenario_selected, Cli, Config, RunId, Settings};

fn no_cli() -> Cli {
    Cli {
        config: None,
        sample: None,
        min_bit: None,
        max_bit: None,
        min_fill_bit: None,
        max_fill_bit: None,
        min_data_bit: None,
        max_data_bit: None,
        filter_scenario: None,
    }
}

fn settings(min: u32, max: u32, min_fill: u32, max_fill: u32, min_data: u32, max_data: u32) -> Settings {
    Settings {
        sample: 1,
        min_bit: min,
        max_bit: max,
        min_fill_bit: min_fill,
        max_fill_bit: max_fill,
        min_data_bit: min_data,
        max_data_bit: max_data,
    }
}

#[test]
fn defaults_apply_without_settings() {
    let s = Config::default().merge_with_cli(no_cli()).resolve();
    assert_eq!(s.sample, 10);
    assert_eq!(s.min_bit, 4);
    assert_eq!(s.max_bit, 16);
    assert_eq!(s.min_fill_bit, 4);
    assert_eq!(s.max_fill_bit, 16);
    assert_eq!(s.min_data_bit, 4);
    assert_eq!(s.max_data_bit, 16);
}

#[test]
fn fill_and_data_bounds_follow_the_capacity_bounds() {
    let mut cli = no_cli();
    cli.min_bit = Some(6);
    cli.max_bit = Some(9);
    cli.max_data_bit = Some(7);
    let s = Config::default().merge_with_cli(cli).resolve();
    assert_eq!((s.min_fill_bit, s.max_fill_bit), (6, 9));
    assert_eq!((s.min_data_bit, s.max_data_bit), (6, 7));
}

#[test]
fn command_line_takes_precedence_over_file() {
    let mut file = Config::default();
    file.sample = Some(20);
    file.min_bit = Some(8);
    file.max_fill_bit = Some(12);
    file.filter_scenario = Some(vec!["BitSet".to_string()]);
    let mut cli = no_cli();
    cli.sample = Some(3);
    cli.filter_scenario = Some(vec!["Insert".to_string()]);
    let merged = file.merge_with_cli(cli);
    assert_eq!(merged.sample, Some(3));
    assert_eq!(merged.min_bit, Some(8));
    assert_eq!(merged.max_bit, None);
    assert_eq!(merged.max_fill_bit, Some(12));
    assert_eq!(merged.filter_scenario, Some(vec!["Insert".to_string()]));
}

#[test]
fn filters_select_by_substring() {
    assert!(scenario_selected("InsertScenario", &None));
    let filters = Some(vec!["Remove".to_string(), "sert".to_string()]);
    assert!(scenario_selected("InsertScenario", &filters));
    assert!(scenario_selected("RemoveScenario", &filters));
    assert!(!scenario_selected("ClearScenario", &filters));
    assert!(!scenario_selected("Ins", &Some(vec!["Insert".to_string()])));
    assert!(scenario_selected("Len", &Some(vec!["".to_string()])));
    assert!(!scenario_selected("Len", &Some(vec![])));
}

#[test]
fn run_id_round_trip() {
    let id = RunId::new(513, 16, 7, 31, 0xDEAD_BEEF_0123_4567);
    assert_eq!(id.unpack(), (513, 16, 7, 31, 0xDEAD_BEEF_0123_4567));
    let wide = RunId::new(u16::MAX, 33, 255, 32, u64::MAX);
    assert_eq!(wide.unpack(), (u16::MAX, 1, 31, 0, u64::MAX));
}

#[test]
fn counts_of_bits() {
    assert_eq!(count_of_bits(0), 0);
    assert_eq!(count_of_bits(1), 1);
    assert_eq!(count_of_bits(4), 15);
    assert_eq!(count_of_bits(15), 32767);
    assert_eq!(count_of_bits(16), 65535);
    assert_eq!(count_of_bits(31), 65535);
}

#[test]
fn plan_lists_every_measurement_in_order() {
    let s = settings(2, 3, 1, 2, 2, 9);
    let runs = plan_runs(&vec![11, 22], &vec![true, false, true], &s);
    let mut expected = Vec::new();
    for seed in [11u64, 22] {
        for scenario in [0u16, 2] {
            for cap in 2u8..=3 {
                for fill in 1u8..=2 {
                    for data in 2u8..=cap {
                        expected.push((scenario, cap, fill, data, seed));
                    }
                }
            }
        }
    }
    let got: Vec<(u16, u8, u8, u8, u64)> = runs.iter().map(|r| r.unpack()).collect();
    assert_eq!(got, expected);
}

#[test]
fn plan_is_empty_for_empty_ranges() {
    let runs = plan_runs(&vec![1], &vec![true], &settings(5, 4, 1, 2, 1, 2));
    assert!(runs.is_empty());
    let runs = plan_runs(&vec![1], &vec![true], &settings(3, 3, 4, 9, 1, 2));
    assert!(runs.is_empty());
    let runs = plan_runs(&vec![], &vec![true], &settings(3, 3, 1, 2, 1, 2));
    assert!(runs.is_empty());
}
