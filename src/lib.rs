pub mod paint;
pub mod style;
mod text;
