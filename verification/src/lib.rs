pub mod bits;
pub mod encode;
pub mod mode;
pub mod segment;

pub use bits::BitStreamWriter;
pub use bits::EncodeError;
pub use mode::Mode;
pub use mode::get_mode;
pub use segment::QRCode;
pub use segment::Segment;
pub use segment::ErrorCorrectionLevel;
pub use segment::encode_segment;
