use dms_name_matching::alpha::{alpha_phase, alpha_progress, alpha_request_path, alpha_route, alpha_text_path, AlphaRoute};
use dms_name_matching::report::VitalCounts;
use dms_name_matching::resources::{cpu_deltas, ft, fuzzy_chunk_size, FileTime, MemoryPressure};

#[test]
fn file_time_joins_halves() {
    assert_eq!(ft(FileTime { low: 5, high: 0 }), 5);
    assert_eq!(ft(FileTime { low: 0xffff_ffff, high: 1 }), 0x1_ffff_ffff);
    assert_eq!(ft(FileTime { low: u32::MAX, high: u32::MAX }), u64::MAX);
}

#[test]
fn cpu_deltas_saturate() {
    assert_eq!(cpu_deltas((10, 20, 30), (15, 26, 37)), (5, 13));
    assert_eq!(cpu_deltas((10, 20, 30), (5, 10, 40)), (0, 10));
    assert_eq!(cpu_deltas((0, 0, 0), (0, u64::MAX, u64::MAX)), (0, u64::MAX));
}

#[test]
fn alpha_progress_counts() {
    let p = alpha_progress(true, 10, 1_000_000);
    assert_eq!(p.processed, 520_000);
    assert!(p.running);
    assert_eq!(p.matched, 374_400);
    assert_eq!(p.ambiguous, 15_600);
    assert_eq!(p.unmatched, 130_000);
    assert_eq!(p.eta_seconds, 9);
    let done = alpha_progress(true, 100, 1_000_000);
    assert_eq!(done.processed, 1_000_000);
    assert!(!done.running);
    assert_eq!(done.eta_seconds, 0);
    let idle = alpha_progress(false, 100, 1_000_000);
    assert_eq!((idle.processed, idle.matched, idle.unmatched), (0, 0, 0));
    let small = alpha_progress(true, 1, 1_000);
    assert_eq!(small.matched + small.ambiguous + small.unmatched, small.processed);
    assert_eq!(alpha_progress(true, 19, 1_000_000).eta_seconds, 1);
}

#[test]
fn alpha_phases() {
    assert_eq!(alpha_phase(0), "Preparing and validating configuration");
    assert_eq!(alpha_phase(8), "Normalization and blocking");
    assert_eq!(alpha_phase(48), "Exact matching L1-L4");
    assert_eq!(alpha_phase(73), "Fuzzy matching L5-L7");
    assert_eq!(alpha_phase(99), "Reconciliation and reports");
    assert_eq!(alpha_phase(100), "Completed");
}

#[test]
fn alpha_paths_and_routes() {
    assert_eq!(alpha_request_path(b"GET /api/job/status?x=1 HTTP/1.1\r\nHost: x\r\n\r\n"), "/api/job/status");
    assert_eq!(alpha_request_path(b""), "/");
    assert_eq!(alpha_request_path(b"GET\r\n/x"), "/");
    assert_eq!(alpha_request_path(b"GET /caf\xe9 HTTP/1.1"), "/caf\u{fffd}");
    assert_eq!(alpha_text_path("POST /api/login?next=/ HTTP/1.1\r\n"), "/api/login");
    assert_eq!(alpha_text_path("  GET   /app.js  "), "/app.js");
    assert_eq!(alpha_route("/"), AlphaRoute::Index);
    assert_eq!(alpha_route("/api/login"), AlphaRoute::Login);
    assert_eq!(alpha_route("/nope"), AlphaRoute::NotFound);
}

#[test]
fn summary_rows_in_export_order() {
    let c = VitalCounts { total_rows: 10, duplicates: 3, multiple_exact_ambiguities: 1, ..VitalCounts::default() };
    let rows = c.summary_rows();
    assert_eq!(rows.len(), 14);
    assert_eq!(rows[0], ("total_rows", 10));
    assert_eq!(rows[5], ("duplicate_rows", 3));
    assert_eq!(rows[13], ("multiple_exact_ambiguities", 1));
}

#[test]
fn fuzzy_chunk_without_memory_reading_clamps_configured_size() {
    assert_eq!(fuzzy_chunk_size(5000, None, MemoryPressure::High), 5000);
    assert_eq!(fuzzy_chunk_size(10, None, MemoryPressure::Normal), 250);
    assert_eq!(fuzzy_chunk_size(90_000, None, MemoryPressure::Relaxed), 20_000);
}

#[test]
fn fuzzy_chunk_follows_memory() {
    assert_eq!(fuzzy_chunk_size(5000, Some(3000), MemoryPressure::Normal), 3000);
    assert_eq!(fuzzy_chunk_size(5000, Some(100), MemoryPressure::Normal), 250);
    assert_eq!(fuzzy_chunk_size(5000, Some(1_000_000), MemoryPressure::High), 2500);
    assert_eq!(fuzzy_chunk_size(400, Some(1_000_000), MemoryPressure::High), 250);
    assert_eq!(fuzzy_chunk_size(5000, Some(1_000_000), MemoryPressure::Relaxed), 10_000);
    assert_eq!(fuzzy_chunk_size(5000, Some(7000), MemoryPressure::Relaxed), 7000);
    assert_eq!(fuzzy_chunk_size(15_000, Some(1_000_000), MemoryPressure::Relaxed), 20_000);
    assert_eq!(fuzzy_chunk_size(usize::MAX, Some(usize::MAX), MemoryPressure::Relaxed), 20_000);
}
