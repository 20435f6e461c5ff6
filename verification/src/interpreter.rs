pub mod environment;
pub mod evaluator;
pub mod machine;
