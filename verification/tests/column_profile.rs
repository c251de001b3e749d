use ox_ontology::column_profile::{profile_to_column_defs, ColumnProfileDef, ColumnStats, SourceProfile, TableProfile};

fn stats(name: &str, nulls: u64, distinct: u64, samples: &[&str]) -> ColumnStats {
    ColumnStats {
        column_name: name.to_string(),
        null_count: nulls,
        distinct_count: distinct,
        sample_values: samples.iter().map(|s| s.to_string()).collect(),
        min_value: None,
        max_value: None,
        pii_redacted: None,
    }
}

#[test]
fn make_id_is_deterministic() {
    let s = "src";
    let a = ColumnProfileDef::make_id(s, "users", "email");
    let b = ColumnProfileDef::make_id(s, "users", "email");
    assert_eq!(a, b);
    assert_ne!(a, ColumnProfileDef::make_id(s, "users", "name"));
    assert_ne!(a, ColumnProfileDef::make_id(s, "orders", "email"));
    assert_ne!(a, ColumnProfileDef::make_id("other", "users", "email"));
}

#[test]
fn make_id_spells_out_the_location() {
    assert_eq!(ColumnProfileDef::make_id("pg", "users", "email"), "cp:pg:users:email");
    assert_eq!(ColumnProfileDef::make_id("", "", ""), "cp:::");
}

#[test]
fn profile_to_column_defs_emits_one_entry_per_column() {
    let profile = SourceProfile {
        table_profiles: vec![
            TableProfile {
                table_name: "users".to_string(),
                row_count: 100,
                column_stats: vec![stats("id", 0, 100, &[]), stats("email", 5, 95, &[])],
            },
            TableProfile {
                table_name: "orders".to_string(),
                row_count: 250,
                column_stats: vec![stats("status", 0, 4, &["new", "paid"])],
            },
        ],
    };
    let now: i64 = 1_748_736_000;
    let entries = profile_to_column_defs(&"pg".to_string(), &profile, now);
    assert_eq!(entries.len(), 3);
    let ids: Vec<&str> = entries.iter().map(|e| e.id.as_str()).collect();
    assert!(ids.contains(&"cp:pg:users:id"));
    assert!(ids.contains(&"cp:pg:users:email"));
    assert!(ids.contains(&"cp:pg:orders:status"));
    for e in &entries {
        assert_eq!(e.sampled_at, now);
    }
}

#[test]
fn entries_follow_table_then_column_order_and_keep_stats() {
    let profile = SourceProfile {
        table_profiles: vec![
            TableProfile { table_name: "a".to_string(), row_count: 1, column_stats: vec![stats("x", 1, 2, &["v"])] },
            TableProfile { table_name: "empty".to_string(), row_count: 0, column_stats: vec![] },
            TableProfile {
                table_name: "b".to_string(),
                row_count: 3,
                column_stats: vec![stats("y", 0, 3, &[]), stats("z", 2, 1, &[])],
            },
        ],
    };
    let entries = profile_to_column_defs(&"src".to_string(), &profile, 7);
    let ids: Vec<&str> = entries.iter().map(|e| e.id.as_str()).collect();
    assert_eq!(ids, vec!["cp:src:a:x", "cp:src:b:y", "cp:src:b:z"]);
    assert_eq!(entries[0].relation, "a");
    assert_eq!(entries[0].column, "x");
    assert_eq!(entries[0].source_id, "src");
    assert_eq!(entries[0].stats, stats("x", 1, 2, &["v"]));
    assert_eq!(entries[2].stats.null_count, 2);
}

#[test]
fn empty_profile_yields_no_entries() {
    let entries = profile_to_column_defs(&"pg".to_string(), &SourceProfile { table_profiles: vec![] }, 0);
    assert!(entries.is_empty());
}
