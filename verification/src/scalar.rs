pub mod bitmap;
