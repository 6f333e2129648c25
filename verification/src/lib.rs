pub mod pallet;
pub mod state;
