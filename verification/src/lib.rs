//! The store of a file drop server: request links and what they received,
//! download links, tenants and quotas, principals, settings, the audit log, and the
//! signed chain of delivery events.
//!
//! [`store::Store`] holds the tables; the other modules hold its operations, each
//! with the specification of what it leaves, and the laws that they keep together.

pub mod accounting;
pub mod admission;
pub mod alerts;
pub mod answers;
pub mod artifact;
pub mod attestations;
pub mod audit;
pub mod automation;
pub mod availability;
pub mod clauses;
pub mod clock;
pub mod columns;
pub mod conversion;
pub mod convert;
pub mod counters;
pub mod decimal;
pub mod documents;
pub mod downloads;
pub mod entitlements;
pub mod evidence;
pub mod exports;
pub mod fetching;
pub mod files;
pub mod finality;
pub mod grants;
pub mod ground;
pub mod hexadecimal;
pub mod identities;
pub mod isolation;
pub mod issuance;
pub mod issue;
pub mod json;
pub mod kinds;
pub mod lifecycle;
pub mod like;
pub mod links;
pub mod listings;
pub mod migration;
pub mod notifications;
pub mod offers;
pub mod paging;
pub mod principals;
pub mod progress;
pub mod quota;
pub mod quota_sql;
pub mod readback;
pub mod records;
pub mod recovery;
pub mod rows;
pub mod schema;
pub mod scim;
pub mod search;
pub mod selection;
pub mod sessions;
pub mod settings;
pub mod signatures;
pub mod sql;
pub mod standing;
pub mod store;
pub mod table;
pub mod tenancy;
pub mod tenants;
pub mod text;
pub mod tickets;
pub mod trail;
pub mod uniqueness;
pub mod upgrade;
pub mod upkeep;
pub mod uploads;
pub mod usage;
