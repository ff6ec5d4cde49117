//! ISO 20022 camt.053.001.02 bank-to-customer statement documents.
//!
//! The library holds a document model (a nested tree of value records) and a
//! codec that renders a document to XML text and parses XML text back into a
//! document. Serialization and parsing are specified against the same tag
//! table, and a round-trip guarantee is proved: a well-formed document,
//! serialized and parsed again, comes back equal in every field.

pub mod chars;
pub mod laws;
pub mod parse;
pub mod serialize;
pub mod model;

pub use model::Account;
pub use model::AccountId;
pub use model::AccountIdKind;
pub use model::Amount;
pub use model::AmountDetails;
pub use model::Balance;
pub use model::BalanceDate;
pub use model::BalanceType;
pub use model::BankToCustomerStatement;
pub use model::BankTransactionCode;
pub use model::CodeOrProprietary;
pub use model::Creditor;
pub use model::Debtor;
pub use model::Document;
pub use model::Domain;
pub use model::Entry;
pub use model::EntryDate;
pub use model::EntryDetails;
pub use model::Family;
pub use model::GroupHeader;
pub use model::PostalAddress;
pub use model::References;
pub use model::RelatedParties;
pub use model::RemittanceInformation;
pub use model::Statement;
pub use model::Transaction;
pub use model::TransactionDetails;
pub use model::build_camt053_document;
pub use model::default_xmlns;
pub use parse::parse_camt053;
pub use serialize::generate_camt053;
pub use serialize::CamtError;
