use activity_log::store::{Activity, ActivityStore, StoreError};
use activity_log::time::LocalDateTime;
use activity_log::timefmt::parse_form_datetime;
use activity_log::color::string_to_rgb;

fn date(text: &str) -> LocalDateTime {
    parse_form_datetime(text).unwrap()
}

fn activity(
    id: Option<i64>,
    when: &str,
    location: &str,
    duration_centihours: Option<i64>,
    kind: &str,
    score_centi: Option<i64>,
    description: &str,
) -> Activity {
    Activity {
        id,
        date: date(when),
        location: location.to_string(),
        duration_centihours,
        kind: kind.to_string(),
        type_color: "#123456".to_string(),
        score_centi,
        description: description.to_string(),
    }
}

#[test]
fn insert_and_retrieve() {
    let mut store = ActivityStore::new();
    let activities = store.get_activities_from(date("2025-01-01T00:00:00"));
    assert_eq!(0, activities.len());

    store
        .insert_activity(
            &activity(
                None,
                "2025-01-01T00:00:00",
                "Norefjell",
                Some(314),
                "Skis",
                Some(80),
                "This was fun",
            ),
        )
        .unwrap();

    let activities = store.get_activities_from(date("2025-01-01T00:00:00"));
    assert_eq!(1, activities.len());

    let first = &activities[0];
    assert_eq!(Some(1), first.id);
    assert_eq!(date("2025-01-01T00:00:00"), first.date);
    assert_eq!(Some(314), first.duration_centihours);
    assert_eq!("Skis", first.kind.as_str());
    assert_eq!("Norefjell", first.location.as_str());
    assert_eq!(Some(80), first.score_centi);
    assert_eq!("This was fun", first.description.as_str());

    store
        .update_activity(
            &activity(
                Some(first.id.unwrap()),
                "2025-02-03T04:05:06",
                "Tryvann",
                Some(5655),
                "Snowboarding",
                Some(100),
                "This was OK",
            ),
        )
        .unwrap();

    let activities = store.get_activities_from(date("2025-01-01T00:00:00"));
    assert_eq!(1, activities.len());

    let updated = store.get_activity(first.id.unwrap()).unwrap();
    assert_eq!(Some(1), updated.id);
    assert_eq!(date("2025-02-03T04:05:06"), updated.date);
    assert_eq!(Some(5655), updated.duration_centihours);
    assert_eq!("Snowboarding", updated.kind.as_str());
    assert_eq!("Tryvann", updated.location.as_str());
    assert_eq!(Some(100), updated.score_centi);
    assert_eq!("This was OK", updated.description.as_str());

    let summary = store.get_summary(date("2025-01-01T00:00:00"), date("2026-01-01T00:00:00"));
    assert_eq!(1, summary[0].days);
}

#[test]
fn insert_then_get_returns_equal_fields_with_fresh_color() {
    let mut store = ActivityStore::new();
    let input = activity(
        None,
        "2025-01-05T10:00:00",
        "Norefjell",
        Some(200),
        "Skis",
        Some(80),
        "fine snow",
    );
    let id = store.insert_activity(&input).unwrap();
    let fetched = store.get_activity(id).unwrap();
    assert_eq!(Some(id), fetched.id);
    assert_eq!(input.date, fetched.date);
    assert_eq!(input.location, fetched.location);
    assert_eq!(input.duration_centihours, fetched.duration_centihours);
    assert_eq!(input.kind, fetched.kind);
    assert_eq!(input.score_centi, fetched.score_centi);
    assert_eq!(input.description, fetched.description);
    // the color is derived fresh from the label, never read from the input
    assert_ne!(fetched.type_color, input.type_color);
    assert_eq!(fetched.type_color, string_to_rgb("Skis"));
}

#[test]
fn update_missing_id_is_not_found_and_delete_is_idempotent() {
    let mut store = ActivityStore::new();
    let err = store
        .update_activity(&activity(Some(42), "2025-01-01T00:00:00", "", Some(100), "Skis", None, ""))
        .unwrap_err();
    assert_eq!(err, StoreError::NotFound);

    // deleting an identity that no row has is not an error
    store.delete_activity(42);

    let id = store
        .insert_activity(&activity(None, "2025-01-01T00:00:00", "", None, "Skis", None, ""))
        .unwrap();
    store.delete_activity(id);
    assert!(store.get_activity(id).is_none());
    store.delete_activity(id);
    assert!(store.get_activity(id).is_none());
}

#[test]
fn insert_validation_errors() {
    let mut store = ActivityStore::new();
    // an identity must not be set yet
    let err = store
        .insert_activity(&activity(Some(1), "2025-01-01T00:00:00", "", None, "Skis", None, ""))
        .unwrap_err();
    assert_eq!(err, StoreError::ValidationError);
    // the type label must be non-empty
    let err = store
        .insert_activity(&activity(None, "2025-01-01T00:00:00", "", None, "", None, ""))
        .unwrap_err();
    assert_eq!(err, StoreError::ValidationError);
    // a duration must be non-negative
    let err = store
        .insert_activity(&activity(None, "2025-01-01T00:00:00", "", Some(-1), "Skis", None, ""))
        .unwrap_err();
    assert_eq!(err, StoreError::ValidationError);
    // an update without an identity is malformed
    let err = store
        .update_activity(&activity(None, "2025-01-01T00:00:00", "", None, "Skis", None, ""))
        .unwrap_err();
    assert_eq!(err, StoreError::ValidationError);
}

#[test]
fn listing_is_newest_first_and_filtered() {
    let mut store = ActivityStore::new();
    store
        .insert_activity(&activity(None, "2025-01-01T00:00:00", "", None, "Skis", None, ""))
        .unwrap();
    store
        .insert_activity(&activity(None, "2025-03-01T00:00:00", "", None, "Skis", None, ""))
        .unwrap();
    store
        .insert_activity(&activity(None, "2025-02-01T00:00:00", "", None, "Skis", None, ""))
        .unwrap();
    store
        .insert_activity(&activity(None, "2024-12-31T23:59:59", "", None, "Skis", None, ""))
        .unwrap();

    let listed = store.get_activities_from(date("2025-01-01T00:00:00"));
    let dates: Vec<LocalDateTime> = listed.iter().map(|a| a.date).collect();
    assert_eq!(
        dates,
        vec![
            date("2025-03-01T00:00:00"),
            date("2025-02-01T00:00:00"),
            date("2025-01-01T00:00:00"),
        ],
    );
}

#[test]
fn summary_counts_and_sums_in_range() {
    let mut store = ActivityStore::new();
    store
        .insert_activity(
            &activity(None, "2025-01-10T00:00:00", "", Some(200), "Skis", None, ""),
        )
        .unwrap();
    store
        .insert_activity(
            &activity(None, "2025-02-10T00:00:00", "", Some(350), "Skis", None, ""),
        )
        .unwrap();
    store
        .insert_activity(
            &activity(None, "2026-06-01T00:00:00", "", Some(500), "Snowboarding", None, ""),
        )
        .unwrap();

    let summary = store.get_summary(date("2025-01-01T00:00:00"), date("2026-01-01T00:00:00"));
    assert_eq!(1, summary.len());
    assert_eq!("Skis", summary[0].kind.as_str());
    assert_eq!(2, summary[0].days);
    assert_eq!(550, summary[0].hours_centi);
}

#[test]
fn summary_is_ascending_by_days_and_null_safe() {
    let mut store = ActivityStore::new();
    store
        .insert_activity(&activity(None, "2025-01-10T00:00:00", "", None, "Skis", None, ""))
        .unwrap();
    store
        .insert_activity(&activity(None, "2025-01-11T00:00:00", "", Some(100), "Skis", None, ""))
        .unwrap();
    store
        .insert_activity(&activity(None, "2025-01-12T00:00:00", "", Some(75), "Hiking", None, ""))
        .unwrap();

    let summary = store.get_summary(date("2025-01-01T00:00:00"), date("2026-01-01T00:00:00"));
    assert_eq!(2, summary.len());
    assert_eq!("Hiking", summary[0].kind.as_str());
    assert_eq!(1, summary[0].days);
    assert_eq!(75, summary[0].hours_centi);
    assert_eq!("Skis", summary[1].kind.as_str());
    assert_eq!(2, summary[1].days);
    assert_eq!(100, summary[1].hours_centi);
}

#[test]
fn summary_range_is_half_open() {
    let mut store = ActivityStore::new();
    store
        .insert_activity(&activity(None, "2025-01-01T00:00:00", "", Some(100), "Skis", None, ""))
        .unwrap();
    store
        .insert_activity(&activity(None, "2026-01-01T00:00:00", "", Some(100), "Skis", None, ""))
        .unwrap();
    let summary = store.get_summary(date("2025-01-01T00:00:00"), date("2026-01-01T00:00:00"));
    assert_eq!(1, summary.len());
    assert_eq!(1, summary[0].days);
}

#[test]
fn type_and_location_lists_are_sorted_and_distinct() {
    let mut store = ActivityStore::new();
    store
        .insert_activity(
            &activity(None, "2025-01-01T00:00:00", "Norefjell", None, "Skis", None, ""),
        )
        .unwrap();
    store
        .insert_activity(
            &activity(None, "2025-01-02T00:00:00", "", None, "Alpine", None, ""),
        )
        .unwrap();
    store
        .insert_activity(
            &activity(None, "2025-01-03T00:00:00", "Hafjell", None, "Skis", None, ""),
        )
        .unwrap();

    let types = store.get_all_types(None, None);
    assert_eq!(types, vec!["Alpine".to_string(), "Skis".to_string()]);

    // the empty location is left out
    let locations = store.get_all_locations(None, None);
    assert_eq!(locations, vec!["Hafjell".to_string(), "Norefjell".to_string()]);

    // a bounded range leaves out rows outside it
    let types = store.get_all_types(
        Some(date("2025-01-02T00:00:00")),
        Some(date("2025-01-02T23:59:59")),
    );
    assert_eq!(types, vec!["Alpine".to_string()]);
}

#[test]
fn wire_rows_decode_with_fresh_color() {
    let row = activity_log::store::ActivityRow {
        id: 7,
        date: "2025-01-01 08:30:00".to_string(),
        location: "Norefjell".to_string(),
        duration_centihours: Some(314),
        kind: "Skis".to_string(),
        score_centi: None,
        description: "fresh".to_string(),
    };
    let decoded = activity_log::store::activity_from_row(&row).unwrap();
    assert_eq!(decoded.id, Some(7));
    assert_eq!(decoded.date, date("2025-01-01T08:30:00"));
    assert_eq!(decoded.location, "Norefjell");
    assert_eq!(decoded.duration_centihours, Some(314));
    assert_eq!(decoded.kind, "Skis");
    assert_eq!(decoded.type_color, string_to_rgb("Skis"));
    assert_eq!(decoded.score_centi, None);
    assert_eq!(decoded.description, "fresh");

    let mut bad = row.clone();
    bad.date = "2025-01-01T08:30:00".to_string();
    assert!(activity_log::store::activity_from_row(&bad).is_none());
}

#[test]
fn ids_are_assigned_in_order() {
    let mut store = ActivityStore::new();
    let first = store
        .insert_activity(&activity(None, "2025-01-01T00:00:00", "", None, "Skis", None, ""))
        .unwrap();
    let second = store
        .insert_activity(&activity(None, "2025-01-02T00:00:00", "", None, "Skis", None, ""))
        .unwrap();
    assert_eq!(first, 1);
    assert_eq!(second, 2);
    // identities are not reused after a delete
    store.delete_activity(second);
    let third = store
        .insert_activity(&activity(None, "2025-01-03T00:00:00", "", None, "Skis", None, ""))
        .unwrap();
    assert_eq!(third, 3);
}
