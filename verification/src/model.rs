//! The camt.053 document model: nested value records mirroring the XML
//! element tree, with a ghost view for every record so that contracts can
//! speak about documents as mathematical values (sequences of characters,
//! sequences of entries).
//!
//! Every record is an immutable value once constructed; optional fields are
//! `Option` so that "absent" and "zero" stay distinguishable. The envelope
//! holds an ordered sequence of one or more statements (the ISO 20022
//! compliant cardinality), recorded by `DocumentView::well_formed`.

use vstd::prelude::*;

verus! {

/// The fixed namespace of camt.053.001.02 documents.
pub open spec fn spec_default_xmlns() -> Seq<char> {
    "urn:iso:std:iso:20022:tech:xsd:camt.053.001.02"@
}

/// The namespace URI a freshly built document carries unless overridden.
pub fn default_xmlns() -> (res: String)
    ensures
        res@ == spec_default_xmlns(),
{
    String::from_str("urn:iso:std:iso:20022:tech:xsd:camt.053.001.02")
}

/// Root record: namespace attribute plus the statement envelope.
#[derive(Debug, Clone, PartialEq)]
pub struct Document {
    pub xmlns: String,
    pub statement: BankToCustomerStatement,
}

/// Envelope: one group header and an ordered sequence of statements.
/// A well-formed document carries at least one statement.
#[derive(Debug, Clone, PartialEq)]
pub struct BankToCustomerStatement {
    pub group_header: GroupHeader,
    pub statements: Vec<Statement>,
}

/// Message identifier and creation timestamp of the whole message.
#[derive(Debug, Clone, PartialEq)]
pub struct GroupHeader {
    pub message_id: String,
    pub creation_date_time: String,
}

/// One account statement: identification, optional sequence numbers,
/// creation timestamp, account, optional balance, booked entries.
#[derive(Debug, Clone, PartialEq)]
pub struct Statement {
    pub id: String,
    pub electronic_sequence_number: Option<u32>,
    pub legal_sequence_number: Option<u32>,
    pub creation_date_time: String,
    pub account: Account,
    pub balance: Option<Balance>,
    pub entries: Vec<Entry>,
}

/// The account the statement reports on.
#[derive(Debug, Clone, PartialEq)]
pub struct Account {
    pub id: AccountId,
}

/// Account identification: exactly one of the two identifier forms.
#[derive(Debug, Clone, PartialEq)]
pub struct AccountId {
    pub id: AccountIdKind,
}

/// Mutually exclusive choice between an IBAN and a free-form identifier.
#[derive(Debug, Clone, PartialEq)]
pub enum AccountIdKind {
    Iban(String),
    Other(String),
}

/// A balance: type code, amount, direction, and date.
#[derive(Debug, Clone, PartialEq)]
pub struct Balance {
    pub type_: BalanceType,
    pub amount: Amount,
    pub credit_debit_indicator: String,
    pub date: BalanceDate,
}

/// Balance type wrapper around the code-or-proprietary choice element.
#[derive(Debug, Clone, PartialEq)]
pub struct BalanceType {
    pub code_or_proprietary: CodeOrProprietary,
}

/// Balance type code drawn from the ISO code list (`OPBD`, `CLBD`, ...).
#[derive(Debug, Clone, PartialEq)]
pub struct CodeOrProprietary {
    pub code: String,
}

/// A monetary amount: ISO 4217 currency code and a decimal value kept as
/// text, so monetary figures never pass through binary floating point.
#[derive(Debug, Clone, PartialEq)]
pub struct Amount {
    pub currency: String,
    pub value: String,
}

/// Date of a balance.
#[derive(Debug, Clone, PartialEq)]
pub struct BalanceDate {
    pub date: String,
}

/// One booked entry (line item) on a statement.
#[derive(Debug, Clone, PartialEq)]
pub struct Entry {
    pub amount: Amount,
    pub credit_debit_indicator: String,
    pub status: String,
    pub booking_date: EntryDate,
    pub value_date: EntryDate,
    pub account_servicer_reference: String,
    pub bank_transaction_code: BankTransactionCode,
    pub entry_details: EntryDetails,
}

/// Booking or value date of an entry.
#[derive(Debug, Clone, PartialEq)]
pub struct EntryDate {
    pub date: String,
}

/// Three-level bank transaction classification.
#[derive(Debug, Clone, PartialEq)]
pub struct BankTransactionCode {
    pub domain: Domain,
}

/// Domain level of the transaction classification.
#[derive(Debug, Clone, PartialEq)]
pub struct Domain {
    pub code: String,
    pub family: Family,
}

/// Family and sub-family levels of the transaction classification.
#[derive(Debug, Clone, PartialEq)]
pub struct Family {
    pub code: String,
    pub sub_family_code: String,
}

/// Container for the transaction details of one entry.
#[derive(Debug, Clone, PartialEq)]
pub struct EntryDetails {
    pub transaction_details: Vec<TransactionDetails>,
}

/// Breakdown of an entry into one underlying transaction.
#[derive(Debug, Clone, PartialEq)]
pub struct TransactionDetails {
    pub references: References,
    pub amount_details: AmountDetails,
    pub related_parties: RelatedParties,
    pub remittance_information: RemittanceInformation,
}

/// References identifying one transaction.
#[derive(Debug, Clone, PartialEq)]
pub struct References {
    pub account_servicer_reference: String,
}

/// Amount details of one transaction.
#[derive(Debug, Clone, PartialEq)]
pub struct AmountDetails {
    pub transaction_amount: Amount,
}

/// The two parties related to one transaction.
#[derive(Debug, Clone, PartialEq)]
pub struct RelatedParties {
    pub debtor: Debtor,
    pub creditor: Creditor,
}

/// The paying party.
#[derive(Debug, Clone, PartialEq)]
pub struct Debtor {
    pub name: String,
    pub postal_address: PostalAddress,
}

/// The receiving party.
#[derive(Debug, Clone, PartialEq)]
pub struct Creditor {
    pub name: String,
    pub postal_address: PostalAddress,
}

/// A postal address as an ordered sequence of address lines.
#[derive(Debug, Clone, PartialEq)]
pub struct PostalAddress {
    pub address_lines: Vec<String>,
}

/// Free-text remittance information of one transaction.
#[derive(Debug, Clone, PartialEq)]
pub struct RemittanceInformation {
    pub unstructured: String,
}

/// Input record for the one-shot document builder: one entry together with
/// its transaction details, before the details are wrapped in their
/// container element.
#[derive(Debug, Clone, PartialEq)]
pub struct Transaction {
    pub amount: Amount,
    pub credit_debit_indicator: String,
    pub status: String,
    pub booking_date: EntryDate,
    pub value_date: EntryDate,
    pub account_servicer_reference: String,
    pub bank_transaction_code: BankTransactionCode,
    pub entry_details: Vec<TransactionDetails>,
}

// ---------------------------------------------------------------------------
// Ghost views: the mathematical model of each record.
// ---------------------------------------------------------------------------

#[verifier::ext_equal]
pub ghost struct DocumentView {
    pub xmlns: Seq<char>,
    pub statement: BankToCustomerStatementView,
}

#[verifier::ext_equal]
pub ghost struct BankToCustomerStatementView {
    pub group_header: GroupHeaderView,
    pub statements: Seq<StatementView>,
}

#[verifier::ext_equal]
pub ghost struct GroupHeaderView {
    pub message_id: Seq<char>,
    pub creation_date_time: Seq<char>,
}

#[verifier::ext_equal]
pub ghost struct StatementView {
    pub id: Seq<char>,
    pub electronic_sequence_number: Option<u32>,
    pub legal_sequence_number: Option<u32>,
    pub creation_date_time: Seq<char>,
    pub account: AccountView,
    pub balance: Option<BalanceView>,
    pub entries: Seq<EntryView>,
}

#[verifier::ext_equal]
pub ghost struct AccountView {
    pub id: AccountIdView,
}

#[verifier::ext_equal]
pub ghost struct AccountIdView {
    pub id: AccountIdKindView,
}

#[verifier::ext_equal]
pub ghost enum AccountIdKindView {
    Iban(Seq<char>),
    Other(Seq<char>),
}

#[verifier::ext_equal]
pub ghost struct BalanceView {
    pub type_: BalanceTypeView,
    pub amount: AmountView,
    pub credit_debit_indicator: Seq<char>,
    pub date: BalanceDateView,
}

#[verifier::ext_equal]
pub ghost struct BalanceTypeView {
    pub code_or_proprietary: CodeOrProprietaryView,
}

#[verifier::ext_equal]
pub ghost struct CodeOrProprietaryView {
    pub code: Seq<char>,
}

#[verifier::ext_equal]
pub ghost struct AmountView {
    pub currency: Seq<char>,
    pub value: Seq<char>,
}

#[verifier::ext_equal]
pub ghost struct BalanceDateView {
    pub date: Seq<char>,
}

#[verifier::ext_equal]
pub ghost struct EntryView {
    pub amount: AmountView,
    pub credit_debit_indicator: Seq<char>,
    pub status: Seq<char>,
    pub booking_date: EntryDateView,
    pub value_date: EntryDateView,
    pub account_servicer_reference: Seq<char>,
    pub bank_transaction_code: BankTransactionCodeView,
    pub entry_details: EntryDetailsView,
}

#[verifier::ext_equal]
pub ghost struct EntryDateView {
    pub date: Seq<char>,
}

#[verifier::ext_equal]
pub ghost struct BankTransactionCodeView {
    pub domain: DomainView,
}

#[verifier::ext_equal]
pub ghost struct DomainView {
    pub code: Seq<char>,
    pub family: FamilyView,
}

#[verifier::ext_equal]
pub ghost struct FamilyView {
    pub code: Seq<char>,
    pub sub_family_code: Seq<char>,
}

#[verifier::ext_equal]
pub ghost struct EntryDetailsView {
    pub transaction_details: Seq<TransactionDetailsView>,
}

#[verifier::ext_equal]
pub ghost struct TransactionDetailsView {
    pub references: ReferencesView,
    pub amount_details: AmountDetailsView,
    pub related_parties: RelatedPartiesView,
    pub remittance_information: RemittanceInformationView,
}

#[verifier::ext_equal]
pub ghost struct ReferencesView {
    pub account_servicer_reference: Seq<char>,
}

#[verifier::ext_equal]
pub ghost struct AmountDetailsView {
    pub transaction_amount: AmountView,
}

#[verifier::ext_equal]
pub ghost struct RelatedPartiesView {
    pub debtor: DebtorView,
    pub creditor: CreditorView,
}

#[verifier::ext_equal]
pub ghost struct DebtorView {
    pub name: Seq<char>,
    pub postal_address: PostalAddressView,
}

#[verifier::ext_equal]
pub ghost struct CreditorView {
    pub name: Seq<char>,
    pub postal_address: PostalAddressView,
}

#[verifier::ext_equal]
pub ghost struct PostalAddressView {
    pub address_lines: Seq<Seq<char>>,
}

#[verifier::ext_equal]
pub ghost struct RemittanceInformationView {
    pub unstructured: Seq<char>,
}

#[verifier::ext_equal]
pub ghost struct TransactionView {
    pub amount: AmountView,
    pub credit_debit_indicator: Seq<char>,
    pub status: Seq<char>,
    pub booking_date: EntryDateView,
    pub value_date: EntryDateView,
    pub account_servicer_reference: Seq<char>,
    pub bank_transaction_code: BankTransactionCodeView,
    pub entry_details: Seq<TransactionDetailsView>,
}


/// The views of a sequence of strings.
pub open spec fn string_views(v: Seq<String>) -> Seq<Seq<char>> {
    v.map_values(|l: String| l@)
}

/// The views of a sequence of entries.
pub open spec fn entry_views(v: Seq<Entry>) -> Seq<EntryView> {
    v.map_values(|e: Entry| e@)
}

/// The views of a sequence of statements.
pub open spec fn statement_views(v: Seq<Statement>) -> Seq<StatementView> {
    v.map_values(|s: Statement| s@)
}

/// The views of a sequence of transaction details.
pub open spec fn tx_details_views(v: Seq<TransactionDetails>) -> Seq<TransactionDetailsView> {
    v.map_values(|t: TransactionDetails| t@)
}

impl DocumentView {
    /// A document is well formed when its envelope carries at least one
    /// statement, the one cardinality the codec commits to.
    pub open spec fn well_formed(self) -> bool {
        self.statement.statements.len() >= 1
    }
}

impl View for Document {
    type V = DocumentView;

    open spec fn view(&self) -> DocumentView {
        DocumentView { xmlns: self.xmlns@, statement: self.statement@ }
    }
}

impl View for BankToCustomerStatement {
    type V = BankToCustomerStatementView;

    open spec fn view(&self) -> BankToCustomerStatementView {
        BankToCustomerStatementView {
            group_header: self.group_header@,
            statements: statement_views(self.statements@),
        }
    }
}

impl View for GroupHeader {
    type V = GroupHeaderView;

    open spec fn view(&self) -> GroupHeaderView {
        GroupHeaderView {
            message_id: self.message_id@,
            creation_date_time: self.creation_date_time@,
        }
    }
}

impl View for Statement {
    type V = StatementView;

    open spec fn view(&self) -> StatementView {
        StatementView {
            id: self.id@,
            electronic_sequence_number: self.electronic_sequence_number,
            legal_sequence_number: self.legal_sequence_number,
            creation_date_time: self.creation_date_time@,
            account: self.account@,
            balance: match self.balance {
                Some(b) => Some(b@),
                None => None,
            },
            entries: entry_views(self.entries@),
        }
    }
}

impl View for Account {
    type V = AccountView;

    open spec fn view(&self) -> AccountView {
        AccountView { id: self.id@ }
    }
}

impl View for AccountId {
    type V = AccountIdView;

    open spec fn view(&self) -> AccountIdView {
        AccountIdView { id: self.id@ }
    }
}

impl View for AccountIdKind {
    type V = AccountIdKindView;

    open spec fn view(&self) -> AccountIdKindView {
        match self {
            AccountIdKind::Iban(s) => AccountIdKindView::Iban(s@),
            AccountIdKind::Other(s) => AccountIdKindView::Other(s@),
        }
    }
}

impl View for Balance {
    type V = BalanceView;

    open spec fn view(&self) -> BalanceView {
        BalanceView {
            type_: self.type_@,
            amount: self.amount@,
            credit_debit_indicator: self.credit_debit_indicator@,
            date: self.date@,
        }
    }
}

impl View for BalanceType {
    type V = BalanceTypeView;

    open spec fn view(&self) -> BalanceTypeView {
        BalanceTypeView { code_or_proprietary: self.code_or_proprietary@ }
    }
}

impl View for CodeOrProprietary {
    type V = CodeOrProprietaryView;

    open spec fn view(&self) -> CodeOrProprietaryView {
        CodeOrProprietaryView { code: self.code@ }
    }
}

impl View for Amount {
    type V = AmountView;

    open spec fn view(&self) -> AmountView {
        AmountView { currency: self.currency@, value: self.value@ }
    }
}

impl View for BalanceDate {
    type V = BalanceDateView;

    open spec fn view(&self) -> BalanceDateView {
        BalanceDateView { date: self.date@ }
    }
}

impl View for Entry {
    type V = EntryView;

    open spec fn view(&self) -> EntryView {
        EntryView {
            amount: self.amount@,
            credit_debit_indicator: self.credit_debit_indicator@,
            status: self.status@,
            booking_date: self.booking_date@,
            value_date: self.value_date@,
            account_servicer_reference: self.account_servicer_reference@,
            bank_transaction_code: self.bank_transaction_code@,
            entry_details: self.entry_details@,
        }
    }
}

impl View for EntryDate {
    type V = EntryDateView;

    open spec fn view(&self) -> EntryDateView {
        EntryDateView { date: self.date@ }
    }
}

impl View for BankTransactionCode {
    type V = BankTransactionCodeView;

    open spec fn view(&self) -> BankTransactionCodeView {
        BankTransactionCodeView { domain: self.domain@ }
    }
}

impl View for Domain {
    type V = DomainView;

    open spec fn view(&self) -> DomainView {
        DomainView { code: self.code@, family: self.family@ }
    }
}

impl View for Family {
    type V = FamilyView;

    open spec fn view(&self) -> FamilyView {
        FamilyView { code: self.code@, sub_family_code: self.sub_family_code@ }
    }
}

impl View for EntryDetails {
    type V = EntryDetailsView;

    open spec fn view(&self) -> EntryDetailsView {
        EntryDetailsView {
            transaction_details: tx_details_views(self.transaction_details@),
        }
    }
}

impl View for TransactionDetails {
    type V = TransactionDetailsView;

    open spec fn view(&self) -> TransactionDetailsView {
        TransactionDetailsView {
            references: self.references@,
            amount_details: self.amount_details@,
            related_parties: self.related_parties@,
            remittance_information: self.remittance_information@,
        }
    }
}

impl View for References {
    type V = ReferencesView;

    open spec fn view(&self) -> ReferencesView {
        ReferencesView { account_servicer_reference: self.account_servicer_reference@ }
    }
}

impl View for AmountDetails {
    type V = AmountDetailsView;

    open spec fn view(&self) -> AmountDetailsView {
        AmountDetailsView { transaction_amount: self.transaction_amount@ }
    }
}

impl View for RelatedParties {
    type V = RelatedPartiesView;

    open spec fn view(&self) -> RelatedPartiesView {
        RelatedPartiesView { debtor: self.debtor@, creditor: self.creditor@ }
    }
}

impl View for Debtor {
    type V = DebtorView;

    open spec fn view(&self) -> DebtorView {
        DebtorView { name: self.name@, postal_address: self.postal_address@ }
    }
}

impl View for Creditor {
    type V = CreditorView;

    open spec fn view(&self) -> CreditorView {
        CreditorView { name: self.name@, postal_address: self.postal_address@ }
    }
}

impl View for PostalAddress {
    type V = PostalAddressView;

    open spec fn view(&self) -> PostalAddressView {
        PostalAddressView {
            address_lines: string_views(self.address_lines@),
        }
    }
}

impl View for RemittanceInformation {
    type V = RemittanceInformationView;

    open spec fn view(&self) -> RemittanceInformationView {
        RemittanceInformationView { unstructured: self.unstructured@ }
    }
}

impl View for Transaction {
    type V = TransactionView;

    open spec fn view(&self) -> TransactionView {
        TransactionView {
            amount: self.amount@,
            credit_debit_indicator: self.credit_debit_indicator@,
            status: self.status@,
            booking_date: self.booking_date@,
            value_date: self.value_date@,
            account_servicer_reference: self.account_servicer_reference@,
            bank_transaction_code: self.bank_transaction_code@,
            entry_details: tx_details_views(self.entry_details@),
        }
    }
}

impl Document {
    /// Builds a document over the given envelope, carrying the fixed
    /// camt.053.001.02 namespace.
    pub fn new(statement: BankToCustomerStatement) -> (res: Document)
        ensures
            res@.xmlns == spec_default_xmlns(),
            res@.statement == statement@,
    {
        Document { xmlns: default_xmlns(), statement }
    }
}

impl Entry {
    /// Wraps a transaction's detail records in their container element,
    /// turning the flat builder input into a statement entry.
    pub fn from_transaction(t: Transaction) -> (res: Entry)
        ensures
            res@.amount == t@.amount,
            res@.credit_debit_indicator == t@.credit_debit_indicator,
            res@.status == t@.status,
            res@.booking_date == t@.booking_date,
            res@.value_date == t@.value_date,
            res@.account_servicer_reference == t@.account_servicer_reference,
            res@.bank_transaction_code == t@.bank_transaction_code,
            res@.entry_details.transaction_details == t@.entry_details,
    {
        Entry {
            amount: t.amount,
            credit_debit_indicator: t.credit_debit_indicator,
            status: t.status,
            booking_date: t.booking_date,
            value_date: t.value_date,
            account_servicer_reference: t.account_servicer_reference,
            bank_transaction_code: t.bank_transaction_code,
            entry_details: EntryDetails { transaction_details: t.entry_details },
        }
    }
}


/// The entry a builder transaction stands for, at the level of views.
pub open spec fn entry_of_transaction_view(t: TransactionView) -> EntryView {
    EntryView {
        amount: t.amount,
        credit_debit_indicator: t.credit_debit_indicator,
        status: t.status,
        booking_date: t.booking_date,
        value_date: t.value_date,
        account_servicer_reference: t.account_servicer_reference,
        bank_transaction_code: t.bank_transaction_code,
        entry_details: EntryDetailsView { transaction_details: t.entry_details },
    }
}

/// Assembles a single-statement document from plain values: message and
/// statement identification, the account IBAN, an opening balance, and one
/// entry per transaction, in the given order. The sequence numbers stay
/// absent.
pub fn build_camt053_document(
    message_id: &str,
    creation_date_time: &str,
    statement_id: &str,
    statement_creation_date_time: &str,
    iban: &str,
    balance_code: &str,
    balance_amount: &str,
    balance_currency: &str,
    balance_credit_debit_indicator: &str,
    balance_date: &str,
    transactions: Vec<Transaction>,
) -> (res: Document)
    ensures
        res@.xmlns == spec_default_xmlns(),
        res@.well_formed(),
        res@.statement.group_header.message_id == message_id@,
        res@.statement.group_header.creation_date_time == creation_date_time@,
        res@.statement.statements.len() == 1,
        ({
            let st = res@.statement.statements[0];
            &&& st.id == statement_id@
            &&& st.electronic_sequence_number is None
            &&& st.legal_sequence_number is None
            &&& st.creation_date_time == statement_creation_date_time@
            &&& st.account.id.id == AccountIdKindView::Iban(iban@)
            &&& st.balance == Some(
                BalanceView {
                    type_: BalanceTypeView {
                        code_or_proprietary: CodeOrProprietaryView { code: balance_code@ },
                    },
                    amount: AmountView { currency: balance_currency@, value: balance_amount@ },
                    credit_debit_indicator: balance_credit_debit_indicator@,
                    date: BalanceDateView { date: balance_date@ },
                },
            )
            &&& st.entries.len() == transactions@.len()
            &&& forall|i: int|
                0 <= i < transactions@.len() ==> st.entries[i] == entry_of_transaction_view(
                    #[trigger] transactions@[i]@,
                )
        }),
{
    let ghost orig = transactions@;
    let mut txs = transactions;
    let mut entries: Vec<Entry> = Vec::new();
    while txs.len() > 0
        invariant
            entries@.len() + txs@.len() == orig.len(),
            txs@ == orig.skip(entries@.len() as int),
            forall|i: int|
                0 <= i < entries@.len() ==> entries@[i]@ == entry_of_transaction_view(
                    #[trigger] orig[i]@,
                ),
        decreases txs@.len(),
    {
        let ghost k = entries@.len();
        let t = txs.remove(0);
        proof {
            assert(t == orig[k as int]);
        }
        let e = Entry::from_transaction(t);
        proof {
            assert(e@ =~= entry_of_transaction_view(orig[k as int]@));
        }
        entries.push(e);
        proof {
            assert(txs@ =~= orig.skip(entries@.len() as int));
        }
    }
    proof {
        assert(entries@.len() == orig.len());
    }
    let stmt = Statement {
        id: String::from_str(statement_id),
        electronic_sequence_number: None,
        legal_sequence_number: None,
        creation_date_time: String::from_str(statement_creation_date_time),
        account: Account { id: AccountId { id: AccountIdKind::Iban(String::from_str(iban)) } },
        balance: Some(
            Balance {
                type_: BalanceType {
                    code_or_proprietary: CodeOrProprietary {
                        code: String::from_str(balance_code),
                    },
                },
                amount: Amount {
                    currency: String::from_str(balance_currency),
                    value: String::from_str(balance_amount),
                },
                credit_debit_indicator: String::from_str(balance_credit_debit_indicator),
                date: BalanceDate { date: String::from_str(balance_date) },
            },
        ),
        entries,
    };
    let mut statements: Vec<Statement> = Vec::new();
    statements.push(stmt);
    let doc = Document {
        xmlns: default_xmlns(),
        statement: BankToCustomerStatement {
            group_header: GroupHeader {
                message_id: String::from_str(message_id),
                creation_date_time: String::from_str(creation_date_time),
            },
            statements,
        },
    };
    proof {
        assert(statement_views(doc.statement.statements@).len() == 1);
    }
    doc
}

} // verus!
