pub mod incrementer;
pub mod constant;
pub mod duplicate;
pub mod wordlist;
pub mod optional_modifier;
pub mod concat;
pub mod case_modifier;
pub mod mask;
pub mod replace;
pub mod rearrange;
