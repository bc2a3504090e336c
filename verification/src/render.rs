//! The render as the scheduler sees it: rows dealt out in bands, workers
//! counted, finished pixels painted into the buffer of a session.

pub mod bands;
pub mod paint;
pub mod picture;
pub mod session;
pub mod workers;

pub use bands::{divide_into_ranges, output_row};
pub use paint::Pixel;
pub use picture::Picture;
pub use session::{scanlines_remaining, ThreadedRenderer};
pub use workers::{batch_worker_count, worker_count, workers_for_batch};
