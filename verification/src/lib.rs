pub mod error;
pub mod expr;
pub mod fake_instrument;
pub mod instrument;
pub mod laws;
pub mod matcher;
pub mod mode;
pub mod resource_manager;
pub mod scpi;
pub mod session;
pub mod sim;
pub mod transport;
pub mod text;

pub use error::Error;
pub use error::IoErrorKind;
pub use error::Status;
pub use error::VisaError;
pub use fake_instrument::FakeInstrument3000;
pub use instrument::Instrument;
pub use mode::AccessMode;
pub use mode::FlushMode;
pub use resource_manager::ResourceManager;
pub use resource_manager::Scope;
pub use scpi::Identification;
pub use session::Session;
pub use sim::SimTransport;
pub use transport::Transport;
