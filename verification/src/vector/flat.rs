pub mod index;
