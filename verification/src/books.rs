pub mod model;
pub mod interface;
pub mod array_orderbook;
pub mod btree_orderbook;
pub mod laws;
