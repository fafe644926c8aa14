//! A verified core for planar and spatial linkages: a small description
//! language for joints, links and constraints, a compiler from that language
//! to a handle-addressed graph, and the bookkeeping of a sequential
//! relaxation solver.
//!
//! * [`dsl`] reads a description and compiles it: [`dsl::lexer`] and
//!   [`dsl::parser`] turn text into a syntax tree, [`dsl::spelling`] says
//!   from which texts a tree is read, and [`dsl::compiler`] resolves names
//!   and builds the mechanism.
//! * [`simcore`] holds the mechanism: [`simcore::types`] its joints, links and
//!   constraints, [`simcore::store`] the arenas they live in,
//!   [`simcore::bindings`] the making of constraints from names, and
//!   [`simcore::solvers`] the passes that relax it.
//!
//! Numbers are carried as IEEE-754 single-precision bit patterns and are never
//! interpreted here. Whatever needs arithmetic on them (the value of a
//! literal, the unit length of an axis, the correction of a joint) is done by
//! functions that the caller passes in; the contracts hold for whatever these
//! functions return.

pub mod dsl;
pub mod error;
pub mod simcore;
pub mod text;
