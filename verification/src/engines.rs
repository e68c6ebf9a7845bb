pub mod simple_engine;
