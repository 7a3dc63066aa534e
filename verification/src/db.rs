use vstd::prelude::*;

use crate::model::DbConfig;
use crate::text::{
    chars_eq_ignore_ascii_case, chars_of, eq_ignore_ascii_case, push_char, trim_chars, trimmed,
    utf8_longer_than,
};

verus! {

pub const BASE_TABLE: &'static str = "nm_base_index";

pub const BASE_REGISTRY: &'static str = "nm_base_registry";

pub const STAGE_TABLE: &'static str = "nm_stage";

pub const JOBS_TABLE: &'static str = "nm_jobs";

pub const LEVEL_STATS_TABLE: &'static str = "nm_level_stats";

pub const RESULTS_TABLE: &'static str = "nm_results";

pub const DEDUP_TABLE: &'static str = "nm_dedup";

pub const METRICS_TABLE: &'static str = "nm_metrics";

/// One column of a table as the server describes it.
#[derive(Debug, Clone)]
pub struct ColumnInfo {
    pub name: String,
    pub data_type: String,
    pub key: String,
}

/// `s` with every backtick doubled.
pub open spec fn escape_backticks(s: Seq<char>) -> Seq<char>
    decreases s.len(),
{
    if s.len() == 0 {
        seq![]
    } else if s.last() == '`' {
        escape_backticks(s.drop_last()) + seq!['`', '`']
    } else {
        escape_backticks(s.drop_last()).push(s.last())
    }
}

/// `v` as a quoted MySQL identifier: in backticks, inner backticks doubled.
pub open spec fn quoted_ident(v: Seq<char>) -> Seq<char> {
    seq!['`'] + escape_backticks(v) + seq!['`']
}

/// `v` as a quoted MySQL identifier (see `quoted_ident`).
pub fn qident(v: &str) -> (r: String)
    ensures
        r@ == quoted_ident(v@),
{
    let chars = chars_of(v);
    let mut out = String::new();
    push_char(&mut out, '`');
    let n = chars.len();
    let mut i: usize = 0;
    while i < n
        invariant
            n == chars@.len(),
            chars@ == v@,
            i <= n,
            out@ == seq!['`'] + escape_backticks(chars@.take(i as int)),
        decreases n - i,
    {
        let c = chars[i];
        assert(chars@.take(i + 1).drop_last() == chars@.take(i as int));
        push_char(&mut out, c);
        if c == '`' {
            push_char(&mut out, '`');
        }
        i += 1;
    }
    assert(chars@.take(n as int) == chars@);
    push_char(&mut out, '`');
    out
}

/// `db`.`table` with both names quoted.
pub open spec fn quoted_table(db: Seq<char>, table: Seq<char>) -> Seq<char> {
    quoted_ident(db) + seq!['.'] + quoted_ident(table)
}

/// The quoted name of table `table` of database `db`.
pub fn qtable(db: &str, table: &str) -> (r: String)
    ensures
        r@ == quoted_table(db@, table@),
{
    let mut out = qident(db);
    push_char(&mut out, '.');
    let t = qident(table);
    out.append(t.as_str());
    out
}

/// Whether `s` holds the character NUL.
fn has_nul(s: &str) -> (r: bool)
    ensures
        r == s@.contains('\0'),
{
    let chars = chars_of(s);
    let n = chars.len();
    let mut i: usize = 0;
    while i < n
        invariant
            n == chars@.len(),
            chars@ == s@,
            i <= n,
            forall|k: int| 0 <= k < i ==> chars@[k] != '\0',
        decreases n - i,
    {
        if chars[i] == '\0' {
            return true;
        }
        i += 1;
    }
    false
}

/// `what` followed by `tail`.
fn labelled(what: &str, tail: &str) -> (r: String)
    ensures
        r@ == what@ + tail@,
{
    let mut out = String::from_str(what);
    out.append(tail);
    out
}

/// Why `v` is refused as a database or table name, `what` naming it, or
/// `None`: blank, longer than 128 bytes, or holding NUL, checked in that
/// order.
pub open spec fn identifier_error(v: Seq<char>, what: Seq<char>) -> Option<Seq<char>> {
    if trimmed(v).len() == 0 {
        Some(what + " is required"@)
    } else if vstd::utf8::encode_utf8(v).len() > 128 {
        Some(what + " is too long"@)
    } else if v.contains('\0') {
        Some(what + " contains an invalid null character"@)
    } else {
        None
    }
}

/// Accepts `v` as a database or table name, or says why not (see
/// `identifier_error`).
pub fn validate_identifier(v: &str, what: &str) -> (r: Result<(), String>)
    ensures
        r matches Ok(_) <==> identifier_error(v@, what@) is None,
        r matches Err(msg) ==> identifier_error(v@, what@) == Some(msg@),
{
    let chars = chars_of(v);
    let t = trim_chars(chars.as_slice());
    if t.len() == 0 {
        return Err(labelled(what, " is required"));
    }
    if utf8_longer_than(chars.as_slice(), 128) {
        return Err(labelled(what, " is too long"));
    }
    if has_nul(v) {
        return Err(labelled(what, " contains an invalid null character"));
    }
    Ok(())
}

/// Whether two configurations name the same server: the same host, case
/// of ASCII letters aside, and the same port.
pub fn same_server(a: &DbConfig, b: &DbConfig) -> (r: bool)
    ensures
        r == (eq_ignore_ascii_case(a.host@, b.host@) && a.port == b.port),
{
    let x = chars_of(a.host.as_str());
    let y = chars_of(b.host.as_str());
    chars_eq_ignore_ascii_case(x.as_slice(), y.as_slice()) && a.port == b.port
}

/// The database that a connection opens: none when it is made without a
/// database or the configured name is blank.
pub fn connection_database(cfg: &DbConfig, with_db: bool) -> (r: Option<String>)
    ensures
        r matches Some(d) ==> d@ == cfg.database@,
        r is Some <==> (with_db && trimmed(cfg.database@).len() > 0),
{
    if !with_db {
        return None;
    }
    let chars = chars_of(cfg.database.as_str());
    let t = trim_chars(chars.as_slice());
    if t.len() == 0 {
        None
    } else {
        Some(String::from_str(cfg.database.as_str()))
    }
}

/// The statement that creates the output database `db` when it is missing.
pub open spec fn create_database_sql_of(db: Seq<char>) -> Seq<char> {
    "CREATE DATABASE IF NOT EXISTS "@ + quoted_ident(db)
        + " CHARACTER SET utf8mb4 COLLATE utf8mb4_0900_ai_ci"@
}

/// The statement that creates the destination database of `cfg`, or why
/// its name is refused.
pub fn output_database_statement(cfg: &DbConfig) -> (r: Result<String, String>)
    ensures
        r matches Ok(sql) ==> identifier_error(cfg.database@, "Destination database"@) is None
            && sql@ == create_database_sql_of(cfg.database@),
        r matches Err(msg) ==> identifier_error(cfg.database@, "Destination database"@)
            == Some(msg@),
        r is Ok <==> identifier_error(cfg.database@, "Destination database"@) is None,
{
    match validate_identifier(cfg.database.as_str(), "Destination database") {
        Err(e) => Err(e),
        Ok(()) => {
            let mut sql = String::from_str("CREATE DATABASE IF NOT EXISTS ");
            let q = qident(cfg.database.as_str());
            sql.append(q.as_str());
            sql.append(" CHARACTER SET utf8mb4 COLLATE utf8mb4_0900_ai_ci");
            Ok(sql)
        },
    }
}

/// The statement that creates each table of the output schema.
pub const CREATE_NM_BASE_REGISTRY: &'static str = r#"CREATE TABLE IF NOT EXISTS nm_base_registry (
            id TINYINT PRIMARY KEY DEFAULT 1,
            base_signature CHAR(64) NOT NULL,
            source_description VARCHAR(512) NOT NULL,
            normalization_version VARCHAR(64) NOT NULL,
            row_count BIGINT NOT NULL DEFAULT 0,
            build_cursor VARCHAR(255) NULL,
            status VARCHAR(32) NOT NULL,
            built_at DATETIME NULL,
            updated_at DATETIME NOT NULL DEFAULT CURRENT_TIMESTAMP ON UPDATE CURRENT_TIMESTAMP
        ) ENGINE=InnoDB"#;

pub const CREATE_NM_BASE_INDEX: &'static str = r#"CREATE TABLE IF NOT EXISTS nm_base_index (
            base_row_id BIGINT UNSIGNED NOT NULL AUTO_INCREMENT PRIMARY KEY,
            source_row_key VARCHAR(255) NOT NULL,
            person_id VARCHAR(255) NULL,
            first_name VARCHAR(255) NOT NULL DEFAULT '',
            middle_name VARCHAR(255) NOT NULL DEFAULT '',
            middle_initial VARCHAR(8) NOT NULL DEFAULT '',
            last_name VARCHAR(255) NOT NULL DEFAULT '',
            birthdate DATE NULL,
            birth_year SMALLINT NULL,
            birth_month TINYINT NULL,
            birth_day TINYINT NULL,
            barangay_code VARCHAR(64) NOT NULL DEFAULT '',
            city_code VARCHAR(64) NOT NULL DEFAULT '',
            first_initial VARCHAR(8) NOT NULL DEFAULT '',
            last_initial VARCHAR(8) NOT NULL DEFAULT '',
            first_prefix3 VARCHAR(24) NOT NULL DEFAULT '',
            last_prefix3 VARCHAR(24) NOT NULL DEFAULT '',
            key_l1 BINARY(16) NULL,
            key_l2 BINARY(16) NULL,
            key_l3 BINARY(16) NULL,
            key_full_name BINARY(16) NULL,
            UNIQUE KEY uq_base_source_key(source_row_key),
            KEY ix_l1(key_l1), KEY ix_l2(key_l2), KEY ix_l3(key_l3), KEY ix_full_name(key_full_name),
            KEY ix_dob_block(birthdate,last_prefix3,first_initial),
            KEY ix_dob_block2(birthdate,first_prefix3,last_initial),
            KEY ix_near_block(last_prefix3,first_initial,birth_year),
            KEY ix_barangay(barangay_code,last_prefix3,first_initial),
            KEY ix_city(city_code,last_prefix3,first_initial)
        ) ENGINE=InnoDB"#;

pub const CREATE_NM_JOBS: &'static str = r#"CREATE TABLE IF NOT EXISTS nm_jobs (
            job_id CHAR(36) PRIMARY KEY,
            process_mode VARCHAR(64) NOT NULL,
            consolidation_mode VARCHAR(64) NOT NULL,
            selected_levels VARCHAR(255) NOT NULL,
            config_hash CHAR(64) NOT NULL,
            status VARCHAR(32) NOT NULL,
            current_phase VARCHAR(64) NULL,
            current_level VARCHAR(16) NULL,
            stage_cursor VARCHAR(255) NULL,
            total_source_rows BIGINT NOT NULL DEFAULT 0,
            processed_rows BIGINT NOT NULL DEFAULT 0,
            matched_rows BIGINT NOT NULL DEFAULT 0,
            ambiguous_rows BIGINT NOT NULL DEFAULT 0,
            unmatched_rows BIGINT NOT NULL DEFAULT 0,
            invalid_rows BIGINT NOT NULL DEFAULT 0,
            duplicate_rows BIGINT NOT NULL DEFAULT 0,
            retained_rows BIGINT NOT NULL DEFAULT 0,
            candidates_scored BIGINT NOT NULL DEFAULT 0,
            config_json LONGTEXT NOT NULL,
            started_at DATETIME NULL,
            finished_at DATETIME NULL,
            updated_at DATETIME NOT NULL DEFAULT CURRENT_TIMESTAMP ON UPDATE CURRENT_TIMESTAMP
        ) ENGINE=InnoDB"#;

pub const CREATE_NM_STAGE: &'static str = r#"CREATE TABLE IF NOT EXISTS nm_stage (
            source_row_id BIGINT UNSIGNED NOT NULL AUTO_INCREMENT PRIMARY KEY,
            job_id CHAR(36) NOT NULL,
            source_row_key VARCHAR(255) NOT NULL,
            source_record_id VARCHAR(255) NULL,
            first_name VARCHAR(255) NOT NULL DEFAULT '',
            middle_name VARCHAR(255) NOT NULL DEFAULT '',
            middle_initial VARCHAR(8) NOT NULL DEFAULT '',
            last_name VARCHAR(255) NOT NULL DEFAULT '',
            birthdate DATE NULL,
            birth_year SMALLINT NULL,
            birth_month TINYINT NULL,
            birth_day TINYINT NULL,
            barangay_code VARCHAR(64) NOT NULL DEFAULT '',
            city_code VARCHAR(64) NOT NULL DEFAULT '',
            first_initial VARCHAR(8) NOT NULL DEFAULT '',
            last_initial VARCHAR(8) NOT NULL DEFAULT '',
            first_prefix3 VARCHAR(24) NOT NULL DEFAULT '',
            last_prefix3 VARCHAR(24) NOT NULL DEFAULT '',
            key_l1 BINARY(16) NULL,
            key_l2 BINARY(16) NULL,
            key_l3 BINARY(16) NULL,
            key_full_name BINARY(16) NULL,
            dedup_root_id BIGINT UNSIGNED NULL,
            dedup_level VARCHAR(16) NULL,
            dedup_confidence VARCHAR(32) NULL,
            dedup_ambiguous_reason VARCHAR(64) NULL,
            match_eligible TINYINT(1) NOT NULL DEFAULT 1,
            match_state VARCHAR(32) NOT NULL DEFAULT 'PENDING',
            match_ambiguous_level VARCHAR(16) NULL,
            match_ambiguous_reason VARCHAR(64) NULL,
            UNIQUE KEY uq_stage_job_source(job_id,source_row_key),
            KEY ix_stage_job_state(job_id,match_eligible,match_state,source_row_id),
            KEY ix_stage_l1(job_id,key_l1), KEY ix_stage_l2(job_id,key_l2), KEY ix_stage_l3(job_id,key_l3),
            KEY ix_stage_full(job_id,key_full_name),
            KEY ix_stage_dob_block(job_id,birthdate,last_prefix3,first_initial),
            KEY ix_stage_dob_block2(job_id,birthdate,first_prefix3,last_initial),
            KEY ix_stage_near(job_id,last_prefix3,first_initial,birth_year),
            KEY ix_stage_dedup(job_id,dedup_root_id,source_row_id)
        ) ENGINE=InnoDB"#;

pub const CREATE_NM_RESULTS: &'static str = r#"CREATE TABLE IF NOT EXISTS nm_results (
            result_id BIGINT UNSIGNED NOT NULL AUTO_INCREMENT PRIMARY KEY,
            job_id CHAR(36) NOT NULL,
            source_row_id BIGINT UNSIGNED NOT NULL,
            source_record_id VARCHAR(255) NULL,
            base_row_id BIGINT UNSIGNED NULL,
            base_record_id VARCHAR(255) NULL,
            match_status VARCHAR(32) NOT NULL,
            matched_category VARCHAR(64) NULL,
            matched_level VARCHAR(16) NULL,
            final_score DECIMAL(7,3) NULL,
            first_name_score DECIMAL(7,3) NULL,
            middle_name_score DECIMAL(7,3) NULL,
            last_name_score DECIMAL(7,3) NULL,
            candidate_count INT NOT NULL DEFAULT 0,
            second_best_score DECIMAL(7,3) NULL,
            score_margin DECIMAL(7,3) NULL,
            middle_match_type VARCHAR(64) NULL,
            ambiguity_reason VARCHAR(64) NULL,
            result_origin VARCHAR(64) NOT NULL DEFAULT 'DIRECT',
            dedup_group_source_row_id BIGINT UNSIGNED NULL,
            created_at DATETIME NOT NULL DEFAULT CURRENT_TIMESTAMP,
            UNIQUE KEY uq_result_job_source(job_id,source_row_id),
            KEY ix_result_job_status(job_id,match_status,matched_level),
            KEY ix_result_base(job_id,base_row_id)
        ) ENGINE=InnoDB"#;

pub const CREATE_NM_DEDUP: &'static str = r#"CREATE TABLE IF NOT EXISTS nm_dedup (
            dedup_id BIGINT UNSIGNED NOT NULL AUTO_INCREMENT PRIMARY KEY,
            job_id CHAR(36) NOT NULL,
            source_row_id BIGINT UNSIGNED NOT NULL,
            duplicate_of_source_row_id BIGINT UNSIGNED NOT NULL,
            dedup_level VARCHAR(16) NOT NULL,
            dedup_score DECIMAL(7,3) NULL,
            confidence VARCHAR(32) NOT NULL,
            middle_match_type VARCHAR(64) NULL,
            created_at DATETIME NOT NULL DEFAULT CURRENT_TIMESTAMP,
            UNIQUE KEY uq_dedup_job_source(job_id,source_row_id),
            KEY ix_dedup_root(job_id,duplicate_of_source_row_id)
        ) ENGINE=InnoDB"#;

pub const CREATE_NM_LEVEL_STATS: &'static str = r#"CREATE TABLE IF NOT EXISTS nm_level_stats (
            job_id CHAR(36) NOT NULL,
            phase VARCHAR(64) NOT NULL,
            level_name VARCHAR(16) NOT NULL,
            status VARCHAR(32) NOT NULL DEFAULT 'RUNNING',
            last_source_row_id BIGINT UNSIGNED NOT NULL DEFAULT 0,
            eligible BIGINT NOT NULL DEFAULT 0,
            matched BIGINT NOT NULL DEFAULT 0,
            ambiguous BIGINT NOT NULL DEFAULT 0,
            candidates BIGINT NOT NULL DEFAULT 0,
            duration_seconds DOUBLE NOT NULL DEFAULT 0,
            started_at DATETIME NULL,
            finished_at DATETIME NULL,
            updated_at DATETIME NOT NULL DEFAULT CURRENT_TIMESTAMP ON UPDATE CURRENT_TIMESTAMP,
            PRIMARY KEY(job_id,phase,level_name)
        ) ENGINE=InnoDB"#;

pub const CREATE_NM_METRICS: &'static str = r#"CREATE TABLE IF NOT EXISTS nm_metrics (
            metric_id BIGINT UNSIGNED NOT NULL AUTO_INCREMENT PRIMARY KEY,
            job_id CHAR(36) NOT NULL,
            captured_at DATETIME NOT NULL DEFAULT CURRENT_TIMESTAMP,
            phase VARCHAR(64) NULL,
            level_name VARCHAR(16) NULL,
            cpu_percent FLOAT NULL,
            memory_percent FLOAT NULL,
            memory_used_gb FLOAT NULL,
            gpu_active TINYINT(1) NOT NULL DEFAULT 0,
            rows_per_second DOUBLE NULL,
            candidates_per_second DOUBLE NULL,
            KEY ix_metrics_job_time(job_id,captured_at)
        ) ENGINE=InnoDB"#;

/// The statements that create the output schema, in the order they run.
pub open spec fn schema_statement_texts() -> Seq<Seq<char>> {
    seq![
        CREATE_NM_BASE_REGISTRY@,
        CREATE_NM_BASE_INDEX@,
        CREATE_NM_JOBS@,
        CREATE_NM_STAGE@,
        CREATE_NM_RESULTS@,
        CREATE_NM_DEDUP@,
        CREATE_NM_LEVEL_STATS@,
        CREATE_NM_METRICS@,
    ]
}

/// The statements that create the output schema, in the order they run.
pub fn schema_statements() -> (r: Vec<&'static str>)
    ensures
        r@.map_values(|s: &str| s@) == schema_statement_texts(),
{
    let r = vec![
        CREATE_NM_BASE_REGISTRY,
        CREATE_NM_BASE_INDEX,
        CREATE_NM_JOBS,
        CREATE_NM_STAGE,
        CREATE_NM_RESULTS,
        CREATE_NM_DEDUP,
        CREATE_NM_LEVEL_STATS,
        CREATE_NM_METRICS,
    ];
    assert(r@.map_values(|s: &str| s@) =~= schema_statement_texts());
    r
}

proof fn lemma_escape_injective(a: Seq<char>, b: Seq<char>)
    requires
        escape_backticks(a) == escape_backticks(b),
    ensures
        a == b,
    decreases a.len() + b.len(),
{
    let ea = escape_backticks(a);
    if a.len() == 0 && b.len() == 0 {
    } else if a.len() == 0 {
        assert(escape_backticks(b).len() > 0);
    } else if b.len() == 0 {
        assert(escape_backticks(a).len() > 0);
    } else {
        let pa = escape_backticks(a.drop_last());
        let pb = escape_backticks(b.drop_last());
        if a.last() == '`' {
            assert(ea.last() == '`');
            if b.last() != '`' {
                assert(escape_backticks(b).last() == b.last());
            }
            assert(ea == pa + seq!['`', '`']);
            assert(ea == pb + seq!['`', '`']);
            assert(pa == ea.subrange(0, ea.len() - 2));
            assert(pb == ea.subrange(0, ea.len() - 2));
        } else {
            assert(ea.last() == a.last());
            if b.last() == '`' {
                assert(escape_backticks(b).last() == '`');
            }
            assert(pa == ea.drop_last());
            assert(pb == ea.drop_last());
        }
        lemma_escape_injective(a.drop_last(), b.drop_last());
        assert(a == a.drop_last().push(a.last()));
        assert(b == b.drop_last().push(b.last()));
    }
}

/// Quoting keeps names apart: two names that quote alike are the same name.
pub proof fn lemma_qident_injective(a: Seq<char>, b: Seq<char>)
    requires
        quoted_ident(a) == quoted_ident(b),
    ensures
        a == b,
{
    let qa = quoted_ident(a);
    assert(escape_backticks(a) == qa.subrange(1, qa.len() - 1));
    assert(escape_backticks(b) == qa.subrange(1, qa.len() - 1));
    lemma_escape_injective(a, b);
}

/// `t` with each pair of backticks read back as one backtick, pairs taken
/// from the end.
pub open spec fn unescape_backticks(t: Seq<char>) -> Seq<char>
    decreases t.len(),
{
    if t.len() == 0 {
        seq![]
    } else if t.len() >= 2 && t.last() == '`' && t[t.len() - 2] == '`' {
        unescape_backticks(t.subrange(0, t.len() - 2)).push('`')
    } else {
        unescape_backticks(t.drop_last()).push(t.last())
    }
}

/// Whether the backticks of `t` come in pairs: every run of backticks has
/// an even length.
pub open spec fn backticks_paired(t: Seq<char>) -> bool
    decreases t.len(),
{
    if t.len() == 0 {
        true
    } else if t.last() == '`' {
        t.len() >= 2 && t[t.len() - 2] == '`' && backticks_paired(t.subrange(0, t.len() - 2))
    } else {
        backticks_paired(t.drop_last())
    }
}

proof fn lemma_escape_round_trip(s: Seq<char>)
    ensures
        backticks_paired(escape_backticks(s)),
        unescape_backticks(escape_backticks(s)) == s,
    decreases s.len(),
{
    if s.len() > 0 {
        let init = s.drop_last();
        lemma_escape_round_trip(init);
        let e = escape_backticks(s);
        let ei = escape_backticks(init);
        if s.last() == '`' {
            assert(e.subrange(0, e.len() - 2) == ei);
        } else {
            assert(e.drop_last() == ei);
        }
        assert(init.push(s.last()) == s);
    }
}

/// A quoted identifier begins and ends with a backtick, the backticks
/// between them come in pairs, and reading each pair back as one backtick
/// gives the name that was quoted.
pub proof fn lemma_qident_round_trip(v: Seq<char>)
    ensures
        quoted_ident(v).len() >= 2,
        quoted_ident(v)[0] == '`',
        quoted_ident(v).last() == '`',
        backticks_paired(quoted_ident(v).subrange(1, quoted_ident(v).len() - 1)),
        unescape_backticks(quoted_ident(v).subrange(1, quoted_ident(v).len() - 1)) == v,
{
    let q = quoted_ident(v);
    assert(q.subrange(1, q.len() - 1) == escape_backticks(v));
    lemma_escape_round_trip(v);
}

/// Whether two configurations name the same server does not depend on
/// their order, and a configuration names the same server as itself.
pub proof fn lemma_same_server_symmetric(a: DbConfig, b: DbConfig)
    ensures
        (eq_ignore_ascii_case(a.host@, b.host@) && a.port == b.port) == (eq_ignore_ascii_case(
            b.host@,
            a.host@,
        ) && b.port == a.port),
        eq_ignore_ascii_case(a.host@, a.host@),
{
}

} // verus!
