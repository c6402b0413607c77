//! Verified core of a desktop explorer for Azure Service Bus: connection
//! strings, SAS tokens, ATOM entity feeds, message planning and the
//! explorer's view state.

pub mod clock;
pub mod connection;
pub mod explorer;
pub mod feed;
pub mod mgmt;
pub mod num;
pub mod sas;
pub mod strmap;
pub mod text;
pub mod views;
pub mod worker;
