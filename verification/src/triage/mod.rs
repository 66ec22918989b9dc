//! Triage: gathering conversations and issues as candidates, and turning those that ask
//! for work into workspaces.
pub mod attachments;
pub mod cache;
pub mod fetcher;
pub mod gitlab;
pub mod im;
pub mod priming;
pub mod reading;
pub mod repos;
pub mod scheduler;
pub mod storage;
pub mod workspace_factory;
