//! Block-device inventory: filesystem signature detection and the merge of
//! several system record sets into one device/partition model.
pub mod combined;
pub mod dev_disk;
pub mod display;
pub mod fstab;
pub mod lookup;
pub mod magic;
pub mod order;
pub mod proc_mounts;
pub mod sys_block;
pub mod text;
