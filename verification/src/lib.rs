pub mod error;
pub mod num;
pub mod text;
pub mod constitutional;
pub mod rx;
pub mod judicial;
pub mod web;
pub mod moj_openapi;
pub mod opendata;
pub mod html;
pub mod mojlaw;
pub mod data;
pub mod regulations;
pub mod legislative;
pub mod judgment;
pub mod agreements;
pub mod updates;
pub mod moj_records;
pub mod sources;
pub mod retry;
pub mod guide;
