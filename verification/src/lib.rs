//! Backend of a nested-stylesheet compiler: a selector-bubbling engine that
//! flattens a tree of rule blocks into ordered flat CSS blocks, an exact
//! rational numeric value with canonical decimal rendering, and a module
//! registry with explicit per-entry visibility.
pub mod css;
pub mod modules;
pub mod number;
pub mod selector;
pub mod stylesheet;

