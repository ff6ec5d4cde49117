//! Serialization: the canonical XML form of every record, stated as spec
//! functions over the ghost views (one place that fixes the tag table for
//! both directions of the codec), and the executable writer proved to
//! produce exactly that form.

use vstd::prelude::*;

use crate::chars::append_escaped;
use crate::chars::append_u32;
use crate::chars::dec_of;
use crate::chars::escape;
use crate::chars::push_char;
use crate::model::AccountIdKindView;
use crate::model::AccountView;
use crate::model::AmountView;
use crate::model::BalanceView;
use crate::model::DocumentView;
use crate::model::EntryView;
use crate::model::GroupHeaderView;
use crate::model::PostalAddressView;
use crate::model::StatementView;
use crate::model::TransactionDetailsView;
use crate::model::Account;
use crate::model::Amount;
use crate::model::Balance;
use crate::model::Document;
use crate::model::Entry;
use crate::model::PostalAddress;
use crate::model::Statement;
use crate::model::TransactionDetails;

verus! {

/// Codec failure taxonomy. Serialization reports `Encoding`; parsing reports
/// `MissingField` (required element absent, named by container and field),
/// `MalformedValue` (element present but its content cannot be read; the
/// element name `#xml` marks text that is not well-formed markup), and
/// `UnsupportedStructure` (root or envelope element is not the expected one).
#[derive(Debug, Clone, PartialEq)]
pub enum CamtError {
    Encoding(String),
    MissingField(String),
    MalformedValue { element: String, text: String },
    UnsupportedStructure(String),
}

#[verifier::ext_equal]
pub ghost enum CamtErrorView {
    Encoding(Seq<char>),
    MissingField(Seq<char>),
    MalformedValue { element: Seq<char>, text: Seq<char> },
    UnsupportedStructure(Seq<char>),
}

impl View for CamtError {
    type V = CamtErrorView;

    open spec fn view(&self) -> CamtErrorView {
        match self {
            CamtError::Encoding(s) => CamtErrorView::Encoding(s@),
            CamtError::MissingField(s) => CamtErrorView::MissingField(s@),
            CamtError::MalformedValue { element, text } => CamtErrorView::MalformedValue {
                element: element@,
                text: text@,
            },
            CamtError::UnsupportedStructure(s) => CamtErrorView::UnsupportedStructure(s@),
        }
    }
}

// ---------------------------------------------------------------------------
// The canonical XML form, piece by piece.
// ---------------------------------------------------------------------------

pub open spec fn open_tag(tag: Seq<char>) -> Seq<char> {
    seq!['<'] + tag + seq!['>']
}

pub open spec fn close_tag(tag: Seq<char>) -> Seq<char> {
    seq!['<', '/'] + tag + seq!['>']
}

/// An opening tag that carries one attribute, its value escaped.
pub open spec fn attr_open_tag(tag: Seq<char>, aname: Seq<char>, aval: Seq<char>) -> Seq<char> {
    seq!['<'] + tag + seq![' '] + aname + seq!['=', '"'] + escape(aval) + seq!['"', '>']
}

/// An element holding one escaped text value.
pub open spec fn text_elem(tag: Seq<char>, v: Seq<char>) -> Seq<char> {
    open_tag(tag) + escape(v) + close_tag(tag)
}

/// An element holding one decimal number.
pub open spec fn num_elem(tag: Seq<char>, n: u32) -> Seq<char> {
    open_tag(tag) + dec_of(n as nat) + close_tag(tag)
}

/// An optional numeric element: absent values are omitted entirely.
pub open spec fn opt_num_elem(tag: Seq<char>, o: Option<u32>) -> Seq<char> {
    match o {
        Some(n) => num_elem(tag, n),
        None => Seq::empty(),
    }
}

/// The amount dual mapping: one element whose `Ccy` attribute carries the
/// currency and whose text content carries the decimal value.
pub open spec fn amount_elem(tag: Seq<char>, a: AmountView) -> Seq<char> {
    attr_open_tag(tag, "Ccy"@, a.currency) + escape(a.value) + close_tag(tag)
}

/// Concatenation of the rendered forms of a sequence of records.
pub open spec fn concat_map<A>(s: Seq<A>, f: spec_fn(A) -> Seq<char>) -> Seq<char>
    decreases s.len(),
{
    if s.len() == 0 {
        Seq::empty()
    } else {
        f(s[0]) + concat_map(s.skip(1), f)
    }
}

pub proof fn lemma_concat_map_push<A>(s: Seq<A>, f: spec_fn(A) -> Seq<char>, x: A)
    ensures
        concat_map(s.push(x), f) == concat_map(s, f) + f(x),
    decreases s.len(),
{
    let t = s.push(x);
    if s.len() == 0 {
        assert(t[0] == x);
        assert(t.skip(1) =~= Seq::<A>::empty());
        assert(concat_map(t, f) == f(x) + concat_map(Seq::<A>::empty(), f));
        assert(f(x) + Seq::<char>::empty() =~= f(x));
        assert(Seq::<char>::empty() + f(x) =~= f(x));
    } else {
        lemma_concat_map_push(s.skip(1), f, x);
        assert(t[0] == s[0]);
        assert(t.skip(1) =~= s.skip(1).push(x));
        assert(concat_map(t, f) == f(s[0]) + concat_map(s.skip(1).push(x), f));
        assert(f(s[0]) + (concat_map(s.skip(1), f) + f(x)) =~= (f(s[0]) + concat_map(
            s.skip(1),
            f,
        )) + f(x));
    }
}

#[verifier::opaque]
pub open spec fn xml_of_group_header(g: GroupHeaderView) -> Seq<char> {
    open_tag("GrpHdr"@) + text_elem("MsgId"@, g.message_id) + text_elem(
        "CreDtTm"@,
        g.creation_date_time,
    ) + close_tag("GrpHdr"@)
}

#[verifier::opaque]
pub open spec fn xml_of_account(a: AccountView) -> Seq<char> {
    open_tag("Acct"@) + open_tag("Id"@) + (match a.id.id {
        AccountIdKindView::Iban(s) => text_elem("IBAN"@, s),
        AccountIdKindView::Other(s) => text_elem("Othr"@, s),
    }) + close_tag("Id"@) + close_tag("Acct"@)
}

/// A date wrapped in its own container element (`BookgDt`, `ValDt`, `Dt`).
pub open spec fn wrapped_date(tag: Seq<char>, date: Seq<char>) -> Seq<char> {
    open_tag(tag) + text_elem("Dt"@, date) + close_tag(tag)
}

#[verifier::opaque]
pub open spec fn xml_of_balance_type(code: Seq<char>) -> Seq<char> {
    open_tag("Tp"@) + open_tag("CdOrPrtry"@) + text_elem("Cd"@, code) + close_tag("CdOrPrtry"@)
        + close_tag("Tp"@)
}

#[verifier::opaque]
pub open spec fn xml_of_balance(b: BalanceView) -> Seq<char> {
    open_tag("Bal"@) + xml_of_balance_type(b.type_.code_or_proprietary.code) + amount_elem(
        "Amt"@,
        b.amount,
    ) + text_elem("CdtDbtInd"@, b.credit_debit_indicator) + wrapped_date("Dt"@, b.date.date)
        + close_tag("Bal"@)
}

pub open spec fn xml_of_opt_balance(o: Option<BalanceView>) -> Seq<char> {
    match o {
        Some(b) => xml_of_balance(b),
        None => Seq::empty(),
    }
}

/// A related party (`Dbtr` or `Cdtr`): name plus postal address lines.
#[verifier::opaque]
pub open spec fn xml_of_party(tag: Seq<char>, name: Seq<char>, addr: PostalAddressView) -> Seq<
    char,
> {
    open_tag(tag) + text_elem("Nm"@, name) + open_tag("PstlAdr"@) + concat_map(
        addr.address_lines,
        |l: Seq<char>| text_elem("AdrLine"@, l),
    ) + close_tag("PstlAdr"@) + close_tag(tag)
}

#[verifier::opaque]
pub open spec fn xml_of_tx_details(t: TransactionDetailsView) -> Seq<char> {
    open_tag("TxDtls"@) + open_tag("Refs"@) + text_elem(
        "AcctSvcrRef"@,
        t.references.account_servicer_reference,
    ) + close_tag("Refs"@) + open_tag("AmtDtls"@) + amount_elem(
        "TxAmt"@,
        t.amount_details.transaction_amount,
    ) + close_tag("AmtDtls"@) + open_tag("RltdPties"@) + xml_of_party(
        "Dbtr"@,
        t.related_parties.debtor.name,
        t.related_parties.debtor.postal_address,
    ) + xml_of_party(
        "Cdtr"@,
        t.related_parties.creditor.name,
        t.related_parties.creditor.postal_address,
    ) + close_tag("RltdPties"@) + open_tag("RmtInf"@) + text_elem(
        "Ustrd"@,
        t.remittance_information.unstructured,
    ) + close_tag("RmtInf"@) + close_tag("TxDtls"@)
}

#[verifier::opaque]
pub open spec fn xml_of_bank_transaction_code(c: crate::model::BankTransactionCodeView) -> Seq<
    char,
> {
    open_tag("BkTxCd"@) + open_tag("Domn"@) + text_elem("Cd"@, c.domain.code) + open_tag("Fmly"@)
        + text_elem("Cd"@, c.domain.family.code) + text_elem(
        "SubFmlyCd"@,
        c.domain.family.sub_family_code,
    ) + close_tag("Fmly"@) + close_tag("Domn"@) + close_tag("BkTxCd"@)
}

#[verifier::opaque]
pub open spec fn xml_of_entry(e: EntryView) -> Seq<char> {
    open_tag("Ntry"@) + amount_elem("Amt"@, e.amount) + text_elem(
        "CdtDbtInd"@,
        e.credit_debit_indicator,
    ) + text_elem("Sts"@, e.status) + wrapped_date("BookgDt"@, e.booking_date.date) + wrapped_date(
        "ValDt"@,
        e.value_date.date,
    ) + text_elem("AcctSvcrRef"@, e.account_servicer_reference) + xml_of_bank_transaction_code(
        e.bank_transaction_code,
    ) + open_tag("NtryDtls"@) + concat_map(
        e.entry_details.transaction_details,
        |t: TransactionDetailsView| xml_of_tx_details(t),
    ) + close_tag("NtryDtls"@) + close_tag("Ntry"@)
}

#[verifier::opaque]
pub open spec fn xml_of_statement(st: StatementView) -> Seq<char> {
    open_tag("Stmt"@) + text_elem("Id"@, st.id) + opt_num_elem(
        "ElctrncSeqNb"@,
        st.electronic_sequence_number,
    ) + opt_num_elem("LglSeqNb"@, st.legal_sequence_number) + text_elem(
        "CreDtTm"@,
        st.creation_date_time,
    ) + xml_of_account(st.account) + xml_of_opt_balance(st.balance) + concat_map(
        st.entries,
        |e: EntryView| xml_of_entry(e),
    ) + close_tag("Stmt"@)
}

/// The whole document: the root carries the namespace attribute, the envelope
/// holds the group header followed by the statements in order.
#[verifier::opaque]
pub open spec fn xml_of_document(d: DocumentView) -> Seq<char> {
    attr_open_tag("Document"@, "xmlns"@, d.xmlns) + open_tag("BkToCstmrStmt"@)
        + xml_of_group_header(d.statement.group_header) + concat_map(
        d.statement.statements,
        |s: StatementView| xml_of_statement(s),
    ) + close_tag("BkToCstmrStmt"@) + close_tag("Document"@)
}

// ---------------------------------------------------------------------------
// The executable writer.
// ---------------------------------------------------------------------------

fn write_open(out: &mut String, tag: &str)
    ensures
        final(out)@ == old(out)@ + open_tag(tag@),
{
    push_char(out, '<');
    out.append(tag);
    push_char(out, '>');
    assert(out@ =~= old(out)@ + open_tag(tag@));
}

fn write_close(out: &mut String, tag: &str)
    ensures
        final(out)@ == old(out)@ + close_tag(tag@),
{
    push_char(out, '<');
    push_char(out, '/');
    out.append(tag);
    push_char(out, '>');
    assert(out@ =~= old(out)@ + close_tag(tag@));
}

fn write_attr_open(out: &mut String, tag: &str, aname: &str, aval: &str)
    ensures
        final(out)@ == old(out)@ + attr_open_tag(tag@, aname@, aval@),
{
    push_char(out, '<');
    out.append(tag);
    push_char(out, ' ');
    out.append(aname);
    push_char(out, '=');
    push_char(out, '"');
    append_escaped(out, aval);
    push_char(out, '"');
    push_char(out, '>');
    assert(out@ =~= old(out)@ + attr_open_tag(tag@, aname@, aval@));
}

fn write_text_elem(out: &mut String, tag: &str, v: &str)
    ensures
        final(out)@ == old(out)@ + text_elem(tag@, v@),
{
    write_open(out, tag);
    append_escaped(out, v);
    write_close(out, tag);
    assert(out@ =~= old(out)@ + text_elem(tag@, v@));
}

fn write_num_elem(out: &mut String, tag: &str, n: u32)
    ensures
        final(out)@ == old(out)@ + num_elem(tag@, n),
{
    write_open(out, tag);
    append_u32(out, n);
    write_close(out, tag);
    assert(out@ =~= old(out)@ + num_elem(tag@, n));
}

fn write_amount_elem(out: &mut String, tag: &str, a: &Amount)
    ensures
        final(out)@ == old(out)@ + amount_elem(tag@, a@),
{
    write_attr_open(out, tag, "Ccy", a.currency.as_str());
    append_escaped(out, a.value.as_str());
    write_close(out, tag);
    assert(out@ =~= old(out)@ + amount_elem(tag@, a@));
}

fn write_account(out: &mut String, a: &Account)
    ensures
        final(out)@ == old(out)@ + xml_of_account(a@),
{
    write_open(out, "Acct");
    write_open(out, "Id");
    match &a.id.id {
        crate::model::AccountIdKind::Iban(s) => write_text_elem(out, "IBAN", s.as_str()),
        crate::model::AccountIdKind::Other(s) => write_text_elem(out, "Othr", s.as_str()),
    }
    write_close(out, "Id");
    write_close(out, "Acct");
    proof {
        reveal(xml_of_account);
    }
    assert(out@ =~= old(out)@ + xml_of_account(a@));
}

fn write_wrapped_date(out: &mut String, tag: &str, date: &str)
    ensures
        final(out)@ == old(out)@ + wrapped_date(tag@, date@),
{
    write_open(out, tag);
    write_text_elem(out, "Dt", date);
    write_close(out, tag);
    assert(out@ =~= old(out)@ + wrapped_date(tag@, date@));
}

fn write_balance_type(out: &mut String, code: &str)
    ensures
        final(out)@ == old(out)@ + xml_of_balance_type(code@),
{
    write_open(out, "Tp");
    write_open(out, "CdOrPrtry");
    write_text_elem(out, "Cd", code);
    write_close(out, "CdOrPrtry");
    write_close(out, "Tp");
    proof {
        reveal(xml_of_balance_type);
    }
    assert(out@ =~= old(out)@ + xml_of_balance_type(code@));
}

fn write_balance(out: &mut String, b: &Balance)
    ensures
        final(out)@ == old(out)@ + xml_of_balance(b@),
{
    write_open(out, "Bal");
    write_balance_type(out, b.type_.code_or_proprietary.code.as_str());
    write_amount_elem(out, "Amt", &b.amount);
    write_text_elem(out, "CdtDbtInd", b.credit_debit_indicator.as_str());
    write_wrapped_date(out, "Dt", b.date.date.as_str());
    write_close(out, "Bal");
    proof {
        reveal(xml_of_balance);
    }
    assert(out@ =~= old(out)@ + xml_of_balance(b@));
}

fn write_party(out: &mut String, tag: &str, name: &str, addr: &PostalAddress)
    ensures
        final(out)@ == old(out)@ + xml_of_party(tag@, name@, addr@),
{
    let ghost f = |l: Seq<char>| text_elem("AdrLine"@, l);
    write_open(out, tag);
    write_text_elem(out, "Nm", name);
    write_open(out, "PstlAdr");
    let ghost mid = out@;
    let n = addr.address_lines.len();
    let mut i: usize = 0;
    while i < n
        invariant
            n == addr.address_lines@.len(),
            i <= n,
            out@ == mid + concat_map(
                addr.address_lines@.subrange(0, i as int).map_values(|l: String| l@),
                f,
            ),
            f == (|l: Seq<char>| text_elem("AdrLine"@, l)),
        decreases n - i,
    {
        write_text_elem(out, "AdrLine", addr.address_lines[i].as_str());
        proof {
            let pre = addr.address_lines@.subrange(0, i as int).map_values(|l: String| l@);
            lemma_concat_map_push(pre, f, addr.address_lines@[i as int]@);
            assert(pre.push(addr.address_lines@[i as int]@) =~= addr.address_lines@.subrange(
                0,
                i + 1,
            ).map_values(|l: String| l@));
        }
        i = i + 1;
    }
    proof {
        assert(addr.address_lines@.subrange(0, n as int) =~= addr.address_lines@);
    }
    write_close(out, "PstlAdr");
    write_close(out, tag);
    proof {
        reveal(xml_of_party);
    }
    assert(out@ =~= old(out)@ + xml_of_party(tag@, name@, addr@));
}

fn write_tx_details(out: &mut String, t: &TransactionDetails)
    ensures
        final(out)@ == old(out)@ + xml_of_tx_details(t@),
{
    write_open(out, "TxDtls");
    write_open(out, "Refs");
    write_text_elem(out, "AcctSvcrRef", t.references.account_servicer_reference.as_str());
    write_close(out, "Refs");
    write_open(out, "AmtDtls");
    write_amount_elem(out, "TxAmt", &t.amount_details.transaction_amount);
    write_close(out, "AmtDtls");
    write_open(out, "RltdPties");
    write_party(
        out,
        "Dbtr",
        t.related_parties.debtor.name.as_str(),
        &t.related_parties.debtor.postal_address,
    );
    write_party(
        out,
        "Cdtr",
        t.related_parties.creditor.name.as_str(),
        &t.related_parties.creditor.postal_address,
    );
    write_close(out, "RltdPties");
    write_open(out, "RmtInf");
    write_text_elem(out, "Ustrd", t.remittance_information.unstructured.as_str());
    write_close(out, "RmtInf");
    write_close(out, "TxDtls");
    proof {
        reveal(xml_of_tx_details);
    }
    assert(out@ =~= old(out)@ + xml_of_tx_details(t@));
}

fn write_bank_transaction_code(out: &mut String, c: &crate::model::BankTransactionCode)
    ensures
        final(out)@ == old(out)@ + xml_of_bank_transaction_code(c@),
{
    write_open(out, "BkTxCd");
    write_open(out, "Domn");
    write_text_elem(out, "Cd", c.domain.code.as_str());
    write_open(out, "Fmly");
    write_text_elem(out, "Cd", c.domain.family.code.as_str());
    write_text_elem(out, "SubFmlyCd", c.domain.family.sub_family_code.as_str());
    write_close(out, "Fmly");
    write_close(out, "Domn");
    write_close(out, "BkTxCd");
    proof {
        reveal(xml_of_bank_transaction_code);
    }
    assert(out@ =~= old(out)@ + xml_of_bank_transaction_code(c@));
}

fn write_entry(out: &mut String, e: &Entry)
    ensures
        final(out)@ == old(out)@ + xml_of_entry(e@),
{
    let ghost f = |t: TransactionDetailsView| xml_of_tx_details(t);
    write_open(out, "Ntry");
    write_amount_elem(out, "Amt", &e.amount);
    write_text_elem(out, "CdtDbtInd", e.credit_debit_indicator.as_str());
    write_text_elem(out, "Sts", e.status.as_str());
    write_wrapped_date(out, "BookgDt", e.booking_date.date.as_str());
    write_wrapped_date(out, "ValDt", e.value_date.date.as_str());
    write_text_elem(out, "AcctSvcrRef", e.account_servicer_reference.as_str());
    write_bank_transaction_code(out, &e.bank_transaction_code);
    write_open(out, "NtryDtls");
    let ghost mid = out@;
    let lst = &e.entry_details.transaction_details;
    let n = lst.len();
    let mut i: usize = 0;
    while i < n
        invariant
            n == lst@.len(),
            i <= n,
            out@ == mid + concat_map(
                lst@.subrange(0, i as int).map_values(|t: TransactionDetails| t@),
                f,
            ),
            f == (|t: TransactionDetailsView| xml_of_tx_details(t)),
        decreases n - i,
    {
        write_tx_details(out, &lst[i]);
        proof {
            let pre = lst@.subrange(0, i as int).map_values(|t: TransactionDetails| t@);
            lemma_concat_map_push(pre, f, lst@[i as int]@);
            assert(pre.push(lst@[i as int]@) =~= lst@.subrange(0, i + 1).map_values(
                |t: TransactionDetails| t@,
            ));
        }
        i = i + 1;
    }
    proof {
        assert(lst@.subrange(0, n as int) =~= lst@);
    }
    write_close(out, "NtryDtls");
    write_close(out, "Ntry");
    proof {
        reveal(xml_of_entry);
    }
    assert(out@ =~= old(out)@ + xml_of_entry(e@));
}

fn write_entries(out: &mut String, entries: &Vec<Entry>)
    ensures
        final(out)@ == old(out)@ + concat_map(
            entries@.map_values(|e: Entry| e@),
            |e: EntryView| xml_of_entry(e),
        ),
{
    let ghost f = |e: EntryView| xml_of_entry(e);
    let n = entries.len();
    let mut i: usize = 0;
    while i < n
        invariant
            n == entries@.len(),
            i <= n,
            out@ == old(out)@ + concat_map(
                entries@.subrange(0, i as int).map_values(|e: Entry| e@),
                f,
            ),
            f == (|e: EntryView| xml_of_entry(e)),
        decreases n - i,
    {
        write_entry(out, &entries[i]);
        proof {
            let pre = entries@.subrange(0, i as int).map_values(|e: Entry| e@);
            lemma_concat_map_push(pre, f, entries@[i as int]@);
            assert(pre.push(entries@[i as int]@) =~= entries@.subrange(0, i + 1).map_values(
                |e: Entry| e@,
            ));
        }
        i = i + 1;
    }
    proof {
        assert(entries@.subrange(0, n as int) =~= entries@);
    }
}

fn write_statement(out: &mut String, st: &Statement)
    ensures
        final(out)@ == old(out)@ + xml_of_statement(st@),
{
    write_open(out, "Stmt");
    write_text_elem(out, "Id", st.id.as_str());
    match st.electronic_sequence_number {
        Some(n) => write_num_elem(out, "ElctrncSeqNb", n),
        None => (),
    }
    match st.legal_sequence_number {
        Some(n) => write_num_elem(out, "LglSeqNb", n),
        None => (),
    }
    write_text_elem(out, "CreDtTm", st.creation_date_time.as_str());
    write_account(out, &st.account);
    match &st.balance {
        Some(b) => write_balance(out, b),
        None => (),
    }
    write_entries(out, &st.entries);
    write_close(out, "Stmt");
    proof {
        reveal(xml_of_statement);
    }
    assert(out@ =~= old(out)@ + xml_of_statement(st@));
}

/// Renders a document to its canonical XML text. Succeeds exactly on well
/// formed documents (at least one statement under the envelope); on an empty
/// envelope it reports the missing element instead of writing an envelope no
/// parser of this format would accept.
pub fn generate_camt053(doc: &Document) -> (res: Result<String, CamtError>)
    ensures
        doc@.well_formed() ==> res is Ok && res->Ok_0@ == xml_of_document(doc@),
        !doc@.well_formed() ==> res is Err && res->Err_0@ == CamtErrorView::Encoding(
            "BkToCstmrStmt/Stmt"@,
        ),
{
    if doc.statement.statements.len() == 0 {
        return Err(CamtError::Encoding(String::from_str("BkToCstmrStmt/Stmt")));
    }
    let mut out = String::new();
    write_attr_open(&mut out, "Document", "xmlns", doc.xmlns.as_str());
    write_open(&mut out, "BkToCstmrStmt");
    write_group_header(&mut out, &doc.statement.group_header);
    write_statements(&mut out, &doc.statement.statements);
    write_close(&mut out, "BkToCstmrStmt");
    write_close(&mut out, "Document");
    proof {
        reveal(xml_of_document);
    }
    assert(out@ =~= xml_of_document(doc@));
    Ok(out)
}

fn write_statements(out: &mut String, lst: &Vec<Statement>)
    ensures
        final(out)@ == old(out)@ + concat_map(
            lst@.map_values(|s: Statement| s@),
            |s: StatementView| xml_of_statement(s),
        ),
{
    let ghost f = |s: StatementView| xml_of_statement(s);
    let n = lst.len();
    let mut i: usize = 0;
    while i < n
        invariant
            n == lst@.len(),
            i <= n,
            out@ == old(out)@ + concat_map(
                lst@.subrange(0, i as int).map_values(|s: Statement| s@),
                f,
            ),
            f == (|s: StatementView| xml_of_statement(s)),
        decreases n - i,
    {
        write_statement(out, &lst[i]);
        proof {
            let pre = lst@.subrange(0, i as int).map_values(|s: Statement| s@);
            lemma_concat_map_push(pre, f, lst@[i as int]@);
            assert(pre.push(lst@[i as int]@) =~= lst@.subrange(0, i + 1).map_values(
                |s: Statement| s@,
            ));
        }
        i = i + 1;
    }
    proof {
        assert(lst@.subrange(0, n as int) =~= lst@);
    }
}

fn write_group_header(out: &mut String, g: &crate::model::GroupHeader)
    ensures
        final(out)@ == old(out)@ + xml_of_group_header(g@),
{
    write_open(out, "GrpHdr");
    write_text_elem(out, "MsgId", g.message_id.as_str());
    write_text_elem(out, "CreDtTm", g.creation_date_time.as_str());
    write_close(out, "GrpHdr");
    proof {
        reveal(xml_of_group_header);
    }
    assert(out@ =~= old(out)@ + xml_of_group_header(g@));
}

} // verus!
