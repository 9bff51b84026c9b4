pub mod table;
