use sailgraph::{process, process_nmea, process_utc_time, process_utc_timestamp, Data, DataPoint, Sentence};

const DAY: i64 = 86_400_000;
const HOUR: i64 = 3_600_000;

#[test]
fn new_point_is_unset() {
    let p = DataPoint::new();
    assert_eq!(p, DataPoint { timestamp: 0, boatspeed: 0, windspeed: 0, winddirection: 0 });
    assert!(!p.is_complete());
}

#[test]
fn fix_is_emitted_once_complete() {
    let mut acc = DataPoint::new();
    let t0 = 3 * DAY + 5 * HOUR;
    assert_eq!(process(&Sentence::DateTime(Some(t0)), &mut acc), None);
    assert_eq!(process(&Sentence::Wind { speed: Some(500), direction: Some(4500) }, &mut acc), None);
    let fix = process(&Sentence::WaterSpeed(Some(300)), &mut acc);
    assert_eq!(
        fix,
        Some(DataPoint { timestamp: t0, boatspeed: 300, windspeed: 500, winddirection: 4500 })
    );
    assert_eq!(acc, DataPoint { timestamp: t0, boatspeed: 0, windspeed: 0, winddirection: 0 });
}

#[test]
fn no_fix_without_timestamp() {
    let mut acc = DataPoint::new();
    assert_eq!(process(&Sentence::Wind { speed: Some(500), direction: Some(4500) }, &mut acc), None);
    assert_eq!(process(&Sentence::WaterSpeed(Some(300)), &mut acc), None);
    assert_eq!(acc.boatspeed, 300);
}

#[test]
fn zero_direction_is_unset() {
    let mut acc = DataPoint::new();
    process(&Sentence::DateTime(Some(HOUR)), &mut acc);
    process(&Sentence::WaterSpeed(Some(300)), &mut acc);
    assert_eq!(process(&Sentence::Wind { speed: Some(500), direction: Some(0) }, &mut acc), None);
}

#[test]
fn missing_fields_are_skipped() {
    let mut acc = DataPoint { timestamp: 7, boatspeed: 1, windspeed: 2, winddirection: 3 };
    process_nmea(&mut acc, &Sentence::Wind { speed: None, direction: Some(9) });
    assert_eq!(acc, DataPoint { timestamp: 7, boatspeed: 1, windspeed: 2, winddirection: 9 });
    process_nmea(&mut acc, &Sentence::Wind { speed: Some(4), direction: None });
    assert_eq!(acc.windspeed, 4);
    process_nmea(&mut acc, &Sentence::WaterSpeed(None));
    process_nmea(&mut acc, &Sentence::Other);
    process_nmea(&mut acc, &Sentence::TimeOfDay(None));
    process_nmea(&mut acc, &Sentence::DateTime(None));
    assert_eq!(acc, DataPoint { timestamp: 7, boatspeed: 1, windspeed: 4, winddirection: 9 });
}

#[test]
fn time_of_day_keeps_the_date() {
    let mut acc = DataPoint::new();
    acc.timestamp = 3 * DAY + 5 * HOUR;
    process_utc_time(&mut acc, Some((HOUR + 250) as u32));
    assert_eq!(acc.timestamp, 3 * DAY + HOUR + 250);
}

#[test]
fn time_of_day_before_any_date_is_on_epoch_day() {
    let mut acc = DataPoint::new();
    process_utc_time(&mut acc, Some((2 * HOUR) as u32));
    assert_eq!(acc.timestamp, 2 * HOUR);
}

#[test]
fn time_of_day_before_epoch() {
    let mut acc = DataPoint::new();
    acc.timestamp = -1;
    process_utc_time(&mut acc, Some(0));
    assert_eq!(acc.timestamp, -DAY);
}

#[test]
fn time_of_day_out_of_range_is_skipped() {
    let mut acc = DataPoint::new();
    acc.timestamp = 5;
    process_utc_time(&mut acc, Some(DAY as u32));
    assert_eq!(acc.timestamp, 5);
}

#[test]
fn date_time_replaces_timestamp() {
    let mut acc = DataPoint::new();
    acc.timestamp = 3 * DAY + 5 * HOUR;
    process_utc_timestamp(&mut acc, Some(42));
    assert_eq!(acc.timestamp, 42);
}

#[test]
fn timestamp_carried_into_next_fix() {
    let t0 = 10 * DAY;
    let sentences = vec![
        Sentence::DateTime(Some(t0)),
        Sentence::WaterSpeed(Some(300)),
        Sentence::Wind { speed: Some(500), direction: Some(4500) },
        Sentence::Other,
        Sentence::WaterSpeed(Some(310)),
        Sentence::Wind { speed: Some(510), direction: Some(4600) },
    ];
    let mut data = Data::new();
    data.load_sentences(&sentences);
    assert_eq!(
        data.data,
        vec![
            DataPoint { timestamp: t0, boatspeed: 300, windspeed: 500, winddirection: 4500 },
            DataPoint { timestamp: t0, boatspeed: 310, windspeed: 510, winddirection: 4600 },
        ]
    );
}

#[test]
fn emitted_points_are_complete() {
    let sentences = vec![
        Sentence::WaterSpeed(Some(300)),
        Sentence::Wind { speed: Some(500), direction: Some(4500) },
        Sentence::TimeOfDay(Some(1000)),
        Sentence::WaterSpeed(Some(0)),
        Sentence::Wind { speed: Some(0), direction: Some(100) },
        Sentence::WaterSpeed(Some(1)),
        Sentence::Wind { speed: Some(2), direction: None },
    ];
    let mut data = Data::new();
    data.load_sentences(&sentences);
    assert_eq!(data.data.len(), 2);
    for p in &data.data {
        assert!(p.is_complete());
    }
    assert_eq!(data.data[1], DataPoint { timestamp: 1000, boatspeed: 1, windspeed: 2, winddirection: 100 });
}
