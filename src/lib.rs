pub mod request;
pub mod response;
pub mod template;
pub mod text;
