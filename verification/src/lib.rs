pub mod cascade;
pub mod coster;
pub mod forwarder;
pub mod ingest;
pub mod telemetry;
pub mod cascade_props;
pub mod clock;
pub mod detectors;
pub mod json;
pub mod json_props;
pub mod model;
pub mod pattern;
pub mod rules;
pub mod service;
pub mod strutil;
pub mod table;
pub mod validator;
