pub mod account_id;
pub mod address;
pub mod promise;
