pub mod ip_counter;
pub mod ua_counter;
pub mod ip_cost;
pub mod dummy;
