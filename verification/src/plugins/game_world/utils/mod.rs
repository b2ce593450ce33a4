pub mod saves;
