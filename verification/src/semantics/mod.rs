//! The semantic passes: conversion of types within generic contexts,
//! binding calls and constructors, specialization of generic types, the
//! passes that insert destructors and temporaries, the order of
//! declarations; references, statements, annotations and `use`; the
//! typed tree of statements with its types and ranges, and the names and
//! diagnostics text of the passes.

pub mod unnamed;
pub mod generic;
pub mod error;
pub mod types;
pub mod hir;
pub mod module;
pub mod destructors;
pub mod order;
pub mod conversion;
pub mod call;
pub mod constructor;
pub mod generic_context;
pub mod convertible;
pub mod temporaries;
pub mod monomorphize;
pub mod imports;
pub mod references;
pub mod statements;
pub mod annotations;
