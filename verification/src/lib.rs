pub mod text;
pub mod odometer;
pub mod recipe_step;
pub mod items;
pub mod candidate_generator;
pub mod recipe_parser;
