//! Arbitration core of a bridge between network clients and host serial
//! ports: one coordinator owns the open ports, the write locks and the
//! client subscriptions, and decides who may write, who is told what, and
//! what is released when a client or a device goes away.

pub mod cfg;
pub mod codec;
pub mod consistency;
pub mod dynamic_sleep;
pub mod errors;
pub mod laws;
pub mod manager;
pub mod messages;
pub mod names;
pub mod port_manager;
pub mod session;
pub mod sub_manager;
pub mod writelock_manager;
