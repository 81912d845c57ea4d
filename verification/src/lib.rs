//! A verified implementation of the JSON:API document model: conversion of
//! generic domain objects to and from JSON:API documents, with sparse
//! fieldsets, sparse includes, recursive side-loading of related resources,
//! and the exact wire format.

pub mod api;
pub mod query;
pub mod model;
pub mod laws;
pub mod json;
pub mod value;

pub use value::JsonValue;
pub use value::ValueModel;
