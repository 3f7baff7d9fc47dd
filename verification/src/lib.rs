//! A verified entity/component/resource store with a loan (checked-out borrow)
//! mechanism, a typed event graph with topological dispatch, handler access
//! metadata with conflict detection, and a snapshot query engine.
//!
//! Values are stored against explicit type tags ([`util::TypeInfo`]); the
//! stores are generic over the payload type, so an application supplies one
//! tagged-union type for everything it stores. All concurrency (task spawning,
//! retry loops, clocks) lives outside: the functions here are the decision
//! core, and every operation reports contention (`Busy`) explicitly instead of
//! blocking, so a driver can yield and retry.

pub mod util;

pub mod loan;

pub mod entity;

pub mod component;

pub mod resource;

pub mod handler;

pub mod event;

pub mod world;

pub mod query;

pub mod asset;

pub mod window;

pub mod render;
