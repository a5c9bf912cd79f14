pub mod aggregate;
pub mod identity;
pub mod outcome;
pub mod pool;
pub mod probe;
pub mod signature;
pub mod tasks;
pub mod token;
