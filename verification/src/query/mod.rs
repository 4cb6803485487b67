pub mod claim;
pub mod claims;
pub mod claims_pending_approval;
pub mod drawing;
pub mod dry_run;
pub mod ready;
pub mod select;

pub use claim::claim;
pub use claims::claims;
pub use claims_pending_approval::claims_pending_approval;
pub use drawing::drawing;
pub use dry_run::dry_run;
pub use ready::ready;
pub use select::select;
