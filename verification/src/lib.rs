pub mod async_keyed_mutex;
pub mod cancellation_ext;
pub mod dispatch_time;
pub mod dispatcher;
pub mod env;
pub mod repository;
pub mod responses;
pub mod text;
pub mod uuid_text;
