//! The privileged helper's own logic: the frames it reads, and what each verb
//! decides once the files have been read. The reading and writing themselves
//! belong to the helper process.
pub mod applying;
pub mod backup;
pub mod channel;
pub mod checking;
pub mod heartbeat;
pub mod removing;
pub mod uninstall;
pub mod verbs;
