//! A memory-management and cooperative-concurrency runtime for bare-metal,
//! single-stack targets, with machine-checked contracts.
//!
//! The crate provides an allocator capability ([`allocator::Alloc`]) that pluggable
//! allocation strategies implement, generic containers built on that capability
//! ([`vec::Vec`], [`boxed::Box`], [`rc::Rc`]), a runtime guard that restricts an
//! allocator instance to the permitted (non-interrupt) execution context
//! ([`guard`]), and a single-threaded cooperative task scheduler driven by
//! resumable computations ([`coroutine`], [`executor`]). One small fully
//! verified allocation strategy ([`arena::Arena`]) implements the capability.

pub mod allocator;
pub mod arena;
pub mod boxed;
pub mod coroutine;
pub mod executor;
pub mod guard;
pub mod layout;
pub mod rc;
pub mod unique;
pub mod vec;
