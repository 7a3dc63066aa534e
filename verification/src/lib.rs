//! Name matching and deduplication of person records: the matching form of
//! names and dates, the rule levels and their plans, the middle-name
//! relations that fuzzy scoring depends on, the SQL the output schema is
//! made of, and the local web interface's request handling and job status.
pub mod alpha;
pub mod db;
pub mod http;
pub mod jobs;
pub mod model;
pub mod normalize;
pub mod report;
pub mod resources;
pub mod similarity;
pub mod text;
