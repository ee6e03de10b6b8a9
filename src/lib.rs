//! Order placement and lifecycle for a shoe store backend: validation of
//! order requests against the catalog, exact fixed-point totals, atomic
//! persistence of an order with its items, ownership checks and the
//! pending-to-cancelled transition.

pub mod catalog;
pub mod model;
pub mod money;
pub mod pricing;
pub mod store;
pub mod views;
