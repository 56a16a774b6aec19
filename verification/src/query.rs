pub mod stratify;
