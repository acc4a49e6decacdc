use layered_migrations::layers::application_order_of;
use layered_migrations::ledger::{LedgerError, MemoryLedger};
use layered_migrations::migration_err;
use layered_migrations::record::{MigrationKind, MigrationRecord};
use layered_migrations::report::{line_col_of, DbError, MigrationFailure};
use layered_migrations::runner::{apply_layers, decide_layer, Layer, LayerAction, LayerContents};
use layered_migrations::source::order_by_version;
use layered_migrations::text::padded_int_string;

fn script(version: i64, description: &str, sql: &str) -> MigrationRecord {
    MigrationRecord::new(version, description.to_string(), MigrationKind::Simple, sql.to_string())
}

fn layer(path: &str, scripts: Vec<MigrationRecord>) -> Layer {
    Layer { path: path.to_string(), contents: LayerContents::Scripts(scripts) }
}

fn absent(path: &str) -> Layer {
    Layer { path: path.to_string(), contents: LayerContents::Absent }
}

#[test]
fn padding_of_versions() {
    assert_eq!(padded_int_string(2, 4), "0002");
    assert_eq!(padded_int_string(12345, 4), "12345");
    assert_eq!(padded_int_string(0, 4), "0000");
    assert_eq!(padded_int_string(-5, 4), "-005");
    assert_eq!(padded_int_string(i64::MIN, 4), "-9223372036854775808");
    assert_eq!(padded_int_string(-42, 0), "-42");
}

#[test]
fn display_of_simple_and_reversible_scripts() {
    assert_eq!(script(2, "add_users", "").display(), "[0002] add_users");
    let up = MigrationRecord::new(3, "add_index".to_string(), MigrationKind::ReversibleUp, String::new());
    assert_eq!(up.display(), "[0003] (ReversibleUp) add_index");
    let down = MigrationRecord::new(17, "drop".to_string(), MigrationKind::ReversibleDown, String::new());
    assert_eq!(down.display(), "[0017] (ReversibleDown) drop");
}

#[test]
fn source_file_joins_directory_once() {
    let m = script(2, "add_users", "");
    assert_eq!(m.source_file("migrations/"), "migrations/0002_add_users.sql");
    assert_eq!(m.source_file("migrations"), "migrations/0002_add_users.sql");
    assert_eq!(m.source_file(""), "0002_add_users.sql");
}

#[test]
fn guidance_names_convention_and_table() {
    let text = migration_err("preparing the database migration");
    assert!(text.starts_with("An error occurred while preparing the database migration."));
    assert!(text.contains("'<VERSION>_<DESCRIPTION>.sql'"));
    assert!(text.contains("_sqlx_migrations"));
}

#[test]
fn line_and_column_of_offsets() {
    let sql = "CREATE TABLE a(x INT);\nINSERT INTO b VALUES (1);";
    assert_eq!(line_col_of(sql, 0), (1, 1));
    assert_eq!(line_col_of(sql, 7), (1, 8));
    assert_eq!(line_col_of(sql, 23), (2, 1));
    assert_eq!(line_col_of(sql, 35), (2, 13));
}

#[test]
fn order_is_reversed_extras_then_base() {
    let order = application_order_of("base".to_string(), vec!["e1".to_string(), "e2".to_string(), "e3".to_string()]);
    assert_eq!(order, vec!["e3", "e2", "e1", "base"]);
    let only = application_order_of("base".to_string(), Vec::new());
    assert_eq!(only, vec!["base"]);
    let twice = application_order_of("base".to_string(), vec!["x".to_string(), "x".to_string()]);
    assert_eq!(twice, vec!["x", "x", "base"]);
}

#[test]
fn decisions_for_missing_empty_and_full_layers() {
    assert_eq!(decide_layer(false, 0, 1), LayerAction::SkipMissing);
    assert_eq!(decide_layer(false, 3, 2), LayerAction::SkipMissing);
    assert_eq!(decide_layer(true, 0, 1), LayerAction::SkipEmptySole);
    assert_eq!(decide_layer(true, 0, 3), LayerAction::SkipEmptyLayer);
    assert_eq!(decide_layer(true, 2, 1), LayerAction::Apply { ignore_missing: false });
    assert_eq!(decide_layer(true, 2, 2), LayerAction::Apply { ignore_missing: true });
}

#[test]
fn missing_directory_is_not_fatal() {
    let layers = vec![absent("extra"), layer("base", vec![script(1, "init", "CREATE TABLE t(x INT);")])];
    let mut ledger = MemoryLedger::new(Vec::new(), Vec::new());
    let actions = apply_layers(&layers, &mut ledger, "db").ok().unwrap();
    assert_eq!(actions, vec![LayerAction::SkipMissing, LayerAction::Apply { ignore_missing: true }]);
    assert_eq!(ledger.applied, vec![1]);
}

#[test]
fn empty_layers_are_noted_by_kind() {
    let sole = vec![layer("base", Vec::new())];
    let mut ledger = MemoryLedger::new(Vec::new(), Vec::new());
    assert_eq!(apply_layers(&sole, &mut ledger, "db").ok().unwrap(), vec![LayerAction::SkipEmptySole]);
    let several = vec![layer("extra", Vec::new()), layer("base", Vec::new())];
    assert_eq!(
        apply_layers(&several, &mut ledger, "db").ok().unwrap(),
        vec![LayerAction::SkipEmptyLayer, LayerAction::SkipEmptyLayer]
    );
    assert!(ledger.applied.is_empty());
}

#[test]
fn second_pass_runs_nothing() {
    let layers = vec![
        layer("extra", vec![script(100, "seed", "INSERT INTO t VALUES (1);")]),
        layer("base", vec![script(1, "init", "CREATE TABLE t(x INT);"), script(2, "more", "ALTER TABLE t ADD y INT;")]),
    ];
    let mut ledger = MemoryLedger::new(Vec::new(), Vec::new());
    assert!(apply_layers(&layers, &mut ledger, "db").is_ok());
    assert_eq!(ledger.applied, vec![100, 1, 2]);
    assert!(apply_layers(&layers, &mut ledger, "db").is_ok());
    assert_eq!(ledger.applied, vec![100, 1, 2]);
    assert_eq!(ledger.apply_outstanding(&vec![script(1, "init", ""), script(2, "more", "")], true), Ok(0));
}

#[test]
fn single_layer_second_pass_runs_nothing() {
    let layers = vec![layer("base", vec![script(1, "init", "CREATE TABLE t(x INT);")])];
    let mut ledger = MemoryLedger::new(Vec::new(), Vec::new());
    assert!(apply_layers(&layers, &mut ledger, "db").is_ok());
    assert!(apply_layers(&layers, &mut ledger, "db").is_ok());
    assert_eq!(ledger.applied, vec![1]);
}

#[test]
fn recorded_version_missing_from_layer() {
    let set = vec![script(1, "init", "")];
    let mut tolerant = MemoryLedger::new(vec![7], Vec::new());
    assert_eq!(tolerant.apply_outstanding(&set, true), Ok(1));
    assert_eq!(tolerant.applied, vec![7, 1]);
    let mut strict = MemoryLedger::new(vec![7], Vec::new());
    assert_eq!(strict.apply_outstanding(&set, false), Err(LedgerError::VersionMissing(7)));
    assert_eq!(strict.applied, vec![7]);
}

#[test]
fn missing_version_through_a_pass() {
    let one = vec![layer("base", vec![script(1, "init", "")])];
    let mut strict = MemoryLedger::new(vec![7], Vec::new());
    let failure = apply_layers(&one, &mut strict, "db").err().unwrap();
    assert_eq!(
        failure.message(),
        "failed to apply database migrations from base\nmigration 7 was previously applied but is missing in the resolved migrations"
    );
    let two = vec![layer("extra", Vec::new()), layer("base", vec![script(1, "init", "")])];
    let mut tolerant = MemoryLedger::new(vec![7], Vec::new());
    assert!(apply_layers(&two, &mut tolerant, "db").is_ok());
    assert_eq!(tolerant.applied, vec![7, 1]);
}

#[test]
fn failing_script_is_reported_against_its_file() {
    let layers = vec![layer(
        "migrations/",
        vec![script(1, "init", "CREATE TABLE t(x INT);"), script(2, "add_users", "CREATE TABLE users(id INT);")],
    )];
    let mut ledger = MemoryLedger::new(Vec::new(), vec![2]);
    let failure = apply_layers(&layers, &mut ledger, "sqlite").err().unwrap();
    assert_eq!(ledger.applied, vec![1]);
    let text = failure.message();
    assert!(text.contains("migrations/0002_add_users.sql"));
    assert!(text.contains("[0002] add_users"));
    assert!(text.contains("CREATE TABLE users(id INT);"));
    assert!(text.contains("migrations/"));
    assert_eq!(
        text,
        "failed to apply database migrations from migrations/\n\
         failed to apply migration [0002] add_users to sqlite\n\
         migrations/0002_add_users.sql: the database refused the script\n\
         CREATE TABLE users(id INT);"
    );
}

#[test]
fn execution_failure_with_position() {
    let set = vec![script(3, "bad", "SELECT 1;\nSELEC 2;")];
    let error = DbError { message: "syntax error".to_string(), position: Some(10) };
    let failure = MigrationFailure::execution("dir", &set, 3, "postgres", error);
    assert_eq!(
        failure.message(),
        "failed to apply database migrations from dir\nfailed to apply migration [0003] bad to postgres\ndir/0003_bad.sql:2:1: syntax error\nSELECT 1;\nSELEC 2;"
    );
    let beyond = DbError { message: "e".to_string(), position: Some(99) };
    let clamped = MigrationFailure::execution("dir", &set, 3, "pg", beyond);
    assert!(clamped.message().contains("dir/0003_bad.sql:2:9: e"));
}

#[test]
fn unreadable_directory_stops_the_pass() {
    let layers = vec![
        Layer { path: "extra".to_string(), contents: LayerContents::Unreadable("bad file name".to_string()) },
        layer("base", vec![script(1, "init", "")]),
    ];
    let mut ledger = MemoryLedger::new(Vec::new(), Vec::new());
    let failure = apply_layers(&layers, &mut ledger, "db").err().unwrap();
    assert!(ledger.applied.is_empty());
    let text = failure.message();
    assert!(text.starts_with("failed to apply database migrations from extra\nAn error occurred while preparing"));
    assert!(text.ends_with("_sqlx_migrations.\nbad file name"));
}

#[test]
fn ledger_failure_keeps_directory_context() {
    let failure = MigrationFailure::ledger("base", "connection lost");
    assert_eq!(failure.message(), "failed to apply database migrations from base\nconnection lost");
}

#[test]
fn scripts_run_in_layer_order_and_down_scripts_are_skipped() {
    let set = vec![
        script(1, "a", ""),
        MigrationRecord::new(2, "b".to_string(), MigrationKind::ReversibleUp, String::new()),
        MigrationRecord::new(2, "b".to_string(), MigrationKind::ReversibleDown, String::new()),
        script(5, "c", ""),
    ];
    let mut ledger = MemoryLedger::new(vec![2], Vec::new());
    assert_eq!(ledger.apply_outstanding(&set, true), Ok(2));
    assert_eq!(ledger.applied, vec![2, 1, 5]);
}

#[test]
fn unsorted_discovery_runs_in_version_order() {
    let found = vec![script(3, "c", ""), script(1, "a", ""), script(10, "j", ""), script(2, "b", "")];
    let sorted = order_by_version(found).ok().unwrap();
    let versions: Vec<i64> = sorted.iter().map(|m| m.version).collect();
    assert_eq!(versions, vec![1, 2, 3, 10]);
    let layers = vec![layer("base", sorted)];
    let mut ledger = MemoryLedger::new(Vec::new(), Vec::new());
    assert!(apply_layers(&layers, &mut ledger, "db").is_ok());
    assert_eq!(ledger.applied, vec![1, 2, 3, 10]);
}

#[test]
fn shared_version_is_refused() {
    let found = vec![script(2, "b", ""), script(1, "a", ""), script(2, "again", "")];
    assert_eq!(order_by_version(found).err(), Some(2));
    assert_eq!(order_by_version(Vec::new()).ok().map(|v| v.len()), Some(0));
}
