pub mod buffer;
pub mod color;
pub mod render_pipeline;
pub mod window;
