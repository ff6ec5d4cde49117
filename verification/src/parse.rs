//! Parsing: a recursive-descent reader of the camt.053 XML form. The whole
//! parser is first stated as spec functions over character sequences — each
//! takes the remaining input and returns the parsed value together with the
//! number of characters consumed, or the exact error — and the executable
//! parser is proved to return precisely what the spec functions say.
//!
//! The reader is strict about markup (explicit end tags, at most one
//! attribute per element, no processing instructions or comments) but
//! forward-compatible about content: unknown child elements are skipped, and
//! text between the children of a container is ignored.

use vstd::prelude::*;

use crate::chars::chars_of;
use crate::chars::cons_unescaped;
use crate::chars::digits_end;
use crate::chars::is_digit;
use crate::chars::is_name_char;
use crate::chars::name_end;
use crate::chars::scan_while;
use crate::chars::text_end;
use crate::chars::unescape;
use crate::chars::val_of;
use crate::model::spec_default_xmlns;
use crate::model::AccountIdKindView;
use crate::model::AccountIdView;
use crate::model::AccountView;
use crate::model::AmountDetailsView;
use crate::model::AmountView;
use crate::model::BalanceDateView;
use crate::model::BalanceTypeView;
use crate::model::BalanceView;
use crate::model::BankToCustomerStatementView;
use crate::model::BankTransactionCodeView;
use crate::model::CodeOrProprietaryView;
use crate::model::CreditorView;
use crate::model::DebtorView;
use crate::model::DocumentView;
use crate::model::DomainView;
use crate::model::EntryDateView;
use crate::model::EntryDetailsView;
use crate::model::EntryView;
use crate::model::FamilyView;
use crate::model::GroupHeaderView;
use crate::model::PostalAddressView;
use crate::model::ReferencesView;
use crate::model::RelatedPartiesView;
use crate::model::RemittanceInformationView;
use crate::model::StatementView;
use crate::model::TransactionDetailsView;
use crate::serialize::CamtErrorView;

verus! {

/// The error reported for text that is not well-formed markup.
pub open spec fn bad_xml() -> CamtErrorView {
    CamtErrorView::MalformedValue { element: "#xml"@, text: Seq::empty() }
}

/// First index at or after `i` that holds a double quote (or the end).
pub open spec fn quote_end(s: Seq<char>, i: int) -> int {
    scan_while(s, i, |c: char| c != '"')
}

/// Does an opening tag start at `i`?
pub open spec fn is_open_at(s: Seq<char>, i: int) -> bool {
    i + 1 < s.len() && s[i] == '<' && s[i + 1] != '/'
}

/// Does a closing tag start at `i`?
pub open spec fn is_close_at(s: Seq<char>, i: int) -> bool {
    i + 1 < s.len() && s[i] == '<' && s[i + 1] == '/'
}

/// Clamps a forward jump into `1 ..= len`, so that every recursion over a
/// suffix makes progress whatever a sub-reader returned.
pub open spec fn bump(j: int, len: int) -> int {
    if j < 1 {
        1
    } else if j > len {
        len
    } else {
        j
    }
}

/// Reads an opening tag at the start of the input: the element name, the
/// optional single attribute (name and unescaped value), and the characters
/// consumed.
pub open spec fn read_open(s: Seq<char>) -> Result<
    (Seq<char>, Option<(Seq<char>, Seq<char>)>, int),
    CamtErrorView,
> {
    if s.len() < 1 || s[0] != '<' {
        Err(bad_xml())
    } else {
        let ne = name_end(s, 1);
        if ne == 1 {
            Err(bad_xml())
        } else if ne < s.len() && s[ne] == '>' {
            Ok((s.subrange(1, ne), None, ne + 1))
        } else if ne < s.len() && s[ne] == ' ' {
            let ae = name_end(s, ne + 1);
            if ae == ne + 1 {
                Err(bad_xml())
            } else if ae + 1 < s.len() && s[ae] == '=' && s[ae + 1] == '"' {
                let qe = quote_end(s, ae + 2);
                if qe >= s.len() {
                    Err(bad_xml())
                } else {
                    match unescape(s.subrange(ae + 2, qe)) {
                        Some(av) => if qe + 1 < s.len() && s[qe + 1] == '>' {
                            Ok((s.subrange(1, ne), Some((s.subrange(ne + 1, ae), av)), qe + 2))
                        } else {
                            Err(bad_xml())
                        },
                        None => Err(
                            CamtErrorView::MalformedValue {
                                element: s.subrange(ne + 1, ae),
                                text: s.subrange(ae + 2, qe),
                            },
                        ),
                    }
                }
            } else {
                Err(bad_xml())
            }
        } else {
            Err(bad_xml())
        }
    }
}

/// Reads a closing tag at the start of the input: the element name and the
/// characters consumed.
pub open spec fn read_close(s: Seq<char>) -> Result<(Seq<char>, int), CamtErrorView> {
    if s.len() < 2 || s[0] != '<' || s[1] != '/' {
        Err(bad_xml())
    } else {
        let ne = name_end(s, 2);
        if ne == 2 {
            Err(bad_xml())
        } else if ne < s.len() && s[ne] == '>' {
            Ok((s.subrange(2, ne), ne + 1))
        } else {
            Err(bad_xml())
        }
    }
}

/// Index just past the `>` that closes the tag starting before `i`, honouring
/// quoted attribute values; `s.len() + 1` marks an unterminated tag.
pub open spec fn tag_end(s: Seq<char>, i: int, in_quote: bool) -> int
    decreases s.len() - i, if in_quote { 1int } else { 0int },
{
    if i < 0 || i >= s.len() {
        s.len() as int + 1
    } else if in_quote {
        if s[i] == '"' {
            tag_end(s, i + 1, false)
        } else {
            tag_end(s, i + 1, true)
        }
    } else if s[i] == '>' {
        i + 1
    } else if s[i] == '"' {
        tag_end(s, i + 1, true)
    } else {
        tag_end(s, i + 1, false)
    }
}

/// Skips forward until `depth` enclosing elements have been closed; used to
/// ignore an unknown element together with everything inside it. Closing
/// `depth` elements takes more characters than `depth`, so a depth at or
/// above the characters left cannot be closed any more and is rejected at
/// once.
pub open spec fn skip_tree(s: Seq<char>, i: int, depth: nat) -> Result<int, CamtErrorView>
    decreases s.len() - i,
{
    if depth == 0 {
        Ok(i)
    } else if i >= s.len() || i < 0 || depth >= s.len() - i {
        Err(bad_xml())
    } else if s[i] == '<' {
        if is_close_at(s, i) {
            let j = bump(tag_end(s, i + 2, false), s.len() as int);
            if j <= i {
                Err(bad_xml())
            } else {
                skip_tree(s, j, (depth - 1) as nat)
            }
        } else {
            let j = tag_end(s, i + 1, false);
            if j > s.len() {
                Err(bad_xml())
            } else {
                let j2 = bump(j, s.len() as int);
                if j2 <= i {
                    Err(bad_xml())
                } else {
                    skip_tree(s, j2, depth + 1)
                }
            }
        }
    } else {
        let j = bump(text_end(s, i), s.len() as int);
        if j <= i {
            Err(bad_xml())
        } else {
            skip_tree(s, j, depth)
        }
    }
}

/// Skips one whole element (opening tag through matching end tag) at the
/// start of the input; returns the characters consumed.
pub open spec fn skip_element(s: Seq<char>) -> Result<int, CamtErrorView> {
    if !is_open_at(s, 0) {
        Err(bad_xml())
    } else {
        let j = tag_end(s, 1, false);
        if j > s.len() {
            Err(bad_xml())
        } else {
            skip_tree(s, bump(j, s.len() as int), 1)
        }
    }
}

/// Looks for the next child element named `want` among a container's
/// children, ignoring text and skipping unknown elements. Stops without
/// finding it at the container's closing tag or at a sibling named in
/// `stops` (the tags that may follow when the wanted child is absent).
/// Returns whether the child was found and the index where the search ended
/// (the `<` of the found element, of the stopping sibling, or of the closing
/// tag).
pub open spec fn seek(s: Seq<char>, want: Seq<char>, stops: Seq<Seq<char>>) -> Result<
    (bool, int),
    CamtErrorView,
>
    decreases s.len(),
{
    let t = text_end(s, 0);
    if t >= s.len() {
        Err(bad_xml())
    } else if is_close_at(s, t) {
        Ok((false, t))
    } else {
        match read_open(s.skip(t)) {
            Err(e) => Err(e),
            Ok((name, _attr, _n)) => if name == want {
                Ok((true, t))
            } else if stops.contains(name) {
                Ok((false, t))
            } else {
                match skip_element(s.skip(t)) {
                    Err(e) => Err(e),
                    Ok(n) => {
                        let j = bump(t + n, s.len() as int);
                        match seek(s.skip(j), want, stops) {
                            Err(e) => Err(e),
                            Ok((found, k)) => Ok((found, j + k)),
                        }
                    },
                }
            },
        }
    }
}

/// Skips text and unknown elements up to the container's closing tag and
/// returns its index.
pub open spec fn seek_close(s: Seq<char>) -> Result<int, CamtErrorView>
    decreases s.len(),
{
    let t = text_end(s, 0);
    if t >= s.len() {
        Err(bad_xml())
    } else if is_close_at(s, t) {
        Ok(t)
    } else {
        match skip_element(s.skip(t)) {
            Err(e) => Err(e),
            Ok(n) => {
                let j = bump(t + n, s.len() as int);
                match seek_close(s.skip(j)) {
                    Err(e) => Err(e),
                    Ok(k) => Ok(j + k),
                }
            },
        }
    }
}

/// Consumes any trailing unknown children and the container's closing tag,
/// whose name must be `tag`.
pub open spec fn finish_elem(s: Seq<char>, tag: Seq<char>) -> Result<int, CamtErrorView> {
    match seek_close(s) {
        Err(e) => Err(e),
        Ok(j) => match read_close(s.skip(j)) {
            Err(e) => Err(e),
            Ok((cname, n)) => if cname == tag {
                Ok(j + n)
            } else {
                Err(bad_xml())
            },
        },
    }
}

/// Parses an element holding a text value: `read_open`, the text run
/// unescaped, and the matching closing tag.
#[verifier::opaque]
pub open spec fn parse_text_elem(s: Seq<char>, tag: Seq<char>, path: Seq<char>) -> Result<
    (Seq<char>, int),
    CamtErrorView,
> {
    match read_open(s) {
        Err(e) => Err(e),
        Ok((name, _attr, n)) => if name != tag {
            Err(bad_xml())
        } else {
            let t = text_end(s, n);
            match unescape(s.subrange(n, t)) {
                None => Err(
                    CamtErrorView::MalformedValue { element: path, text: s.subrange(n, t) },
                ),
                Some(v) => match read_close(s.skip(t)) {
                    Err(e) => Err(e),
                    Ok((cname, m)) => if cname == tag {
                        Ok((v, t + m))
                    } else {
                        Err(bad_xml())
                    },
                },
            }
        },
    }
}

/// Parses an element holding a decimal number. The content must be one or
/// more digits and fit the numeric type; anything else is a malformed value,
/// never silently coerced.
#[verifier::opaque]
pub open spec fn parse_num_elem(s: Seq<char>, tag: Seq<char>, path: Seq<char>) -> Result<
    (u32, int),
    CamtErrorView,
> {
    match read_open(s) {
        Err(e) => Err(e),
        Ok((name, _attr, n)) => if name != tag {
            Err(bad_xml())
        } else {
            let d = digits_end(s, n);
            let t = text_end(s, n);
            if d == n || d != t || val_of(s.subrange(n, d)) > u32::MAX {
                Err(CamtErrorView::MalformedValue { element: path, text: s.subrange(n, t) })
            } else {
                match read_close(s.skip(t)) {
                    Err(e) => Err(e),
                    Ok((cname, m)) => if cname == tag {
                        Ok((val_of(s.subrange(n, d)) as u32, t + m))
                    } else {
                        Err(bad_xml())
                    },
                }
            }
        },
    }
}

/// Parses the amount dual mapping: the `Ccy` attribute gives the currency,
/// the text content the decimal value.
#[verifier::opaque]
pub open spec fn parse_amount_elem(s: Seq<char>, tag: Seq<char>, path: Seq<char>) -> Result<
    (AmountView, int),
    CamtErrorView,
> {
    match read_open(s) {
        Err(e) => Err(e),
        Ok((name, attr, n)) => if name != tag {
            Err(bad_xml())
        } else {
            match attr {
                None => Err(CamtErrorView::MissingField(path)),
                Some((aname, aval)) => if aname != "Ccy"@ {
                    Err(CamtErrorView::MissingField(path))
                } else {
                    let t = text_end(s, n);
                    match unescape(s.subrange(n, t)) {
                        None => Err(
                            CamtErrorView::MalformedValue {
                                element: path,
                                text: s.subrange(n, t),
                            },
                        ),
                        Some(v) => match read_close(s.skip(t)) {
                            Err(e) => Err(e),
                            Ok((cname, m)) => if cname == tag {
                                Ok((AmountView { currency: aval, value: v }, t + m))
                            } else {
                                Err(bad_xml())
                            },
                        },
                    }
                },
            }
        },
    }
}

// ---------------------------------------------------------------------------
// Child combinators.
// ---------------------------------------------------------------------------

/// Seeks a required child and hands it to its reader; reports the child as
/// missing (under `path`) when the search stops without finding it.
pub open spec fn req_child<T>(
    s: Seq<char>,
    tag: Seq<char>,
    stops: Seq<Seq<char>>,
    path: Seq<char>,
    rd: spec_fn(Seq<char>) -> Result<(T, int), CamtErrorView>,
) -> Result<(T, int), CamtErrorView> {
    match seek(s, tag, stops) {
        Err(e) => Err(e),
        Ok((found, j)) => if !found {
            Err(CamtErrorView::MissingField(path))
        } else {
            match rd(s.skip(j)) {
                Err(e) => Err(e),
                Ok((v, n)) => Ok((v, j + n)),
            }
        },
    }
}

/// Seeks an optional child: absent is a value, never an error.
pub open spec fn opt_child<T>(
    s: Seq<char>,
    tag: Seq<char>,
    stops: Seq<Seq<char>>,
    rd: spec_fn(Seq<char>) -> Result<(T, int), CamtErrorView>,
) -> Result<(Option<T>, int), CamtErrorView> {
    match seek(s, tag, stops) {
        Err(e) => Err(e),
        Ok((found, j)) => if !found {
            Ok((None, j))
        } else {
            match rd(s.skip(j)) {
                Err(e) => Err(e),
                Ok((v, n)) => Ok((Some(v), j + n)),
            }
        },
    }
}

/// Reads zero or more children named `tag`, in input order, up to the
/// container's closing tag.
pub open spec fn parse_list<T>(
    s: Seq<char>,
    tag: Seq<char>,
    rd: spec_fn(Seq<char>) -> Result<(T, int), CamtErrorView>,
) -> Result<(Seq<T>, int), CamtErrorView>
    decreases s.len(),
{
    match seek(s, tag, Seq::empty()) {
        Err(e) => Err(e),
        Ok((found, j)) => if !found {
            Ok((Seq::empty(), j))
        } else {
            match rd(s.skip(j)) {
                Err(e) => Err(e),
                Ok((v, n)) => {
                    let j2 = bump(j + n, s.len() as int);
                    if j2 <= 0 {
                        Err(bad_xml())
                    } else {
                        match parse_list(s.skip(j2), tag, rd) {
                            Err(e) => Err(e),
                            Ok((vs, k)) => Ok((seq![v] + vs, j2 + k)),
                        }
                    }
                },
            }
        },
    }
}

// ---------------------------------------------------------------------------
// Record parsers.
// ---------------------------------------------------------------------------

// ---------------------------------------------------------------------------
// Named readers: the spec closures the containers hand to the combinators.
// Naming them lets executable helpers and proofs speak about the same
// `spec_fn` values the containers use.
// ---------------------------------------------------------------------------

pub open spec fn text_reader(tag: Seq<char>, path: Seq<char>) -> spec_fn(Seq<char>) -> Result<
    (Seq<char>, int),
    CamtErrorView,
> {
    |x: Seq<char>| parse_text_elem(x, tag, path)
}

pub open spec fn num_reader(tag: Seq<char>, path: Seq<char>) -> spec_fn(Seq<char>) -> Result<
    (u32, int),
    CamtErrorView,
> {
    |x: Seq<char>| parse_num_elem(x, tag, path)
}

pub open spec fn tx_details_reader() -> spec_fn(Seq<char>) -> Result<
    (TransactionDetailsView, int),
    CamtErrorView,
> {
    |x: Seq<char>| parse_tx_details(x)
}

pub open spec fn entry_reader() -> spec_fn(Seq<char>) -> Result<(EntryView, int), CamtErrorView> {
    |x: Seq<char>| parse_entry(x)
}

pub open spec fn statement_reader() -> spec_fn(Seq<char>) -> Result<
    (StatementView, int),
    CamtErrorView,
> {
    |x: Seq<char>| parse_statement(x)
}


#[verifier::opaque]
pub open spec fn parse_group_header(s: Seq<char>) -> Result<(GroupHeaderView, int), CamtErrorView> {
    match read_open(s) {
        Err(e) => Err(e),
        Ok((_name, _attr, n0)) => match req_child(
            s.skip(n0),
            "MsgId"@,
            Seq::empty(),
            "GrpHdr/MsgId"@,
            text_reader("MsgId"@, "GrpHdr/MsgId"@),
        ) {
            Err(e) => Err(e),
            Ok((msg, m1)) => match req_child(
                s.skip(n0 + m1),
                "CreDtTm"@,
                Seq::empty(),
                "GrpHdr/CreDtTm"@,
                text_reader("CreDtTm"@, "GrpHdr/CreDtTm"@),
            ) {
                Err(e) => Err(e),
                Ok((cre, m2)) => match finish_elem(s.skip(n0 + m1 + m2), "GrpHdr"@) {
                    Err(e) => Err(e),
                    Ok(m3) => Ok(
                        (
                            GroupHeaderView { message_id: msg, creation_date_time: cre },
                            n0 + m1 + m2 + m3,
                        ),
                    ),
                },
            },
        },
    }
}

/// Parses `Acct/Id`: exactly one of `IBAN` or `Othr` must be present.
#[verifier::opaque]
pub open spec fn parse_account_id(s: Seq<char>) -> Result<(AccountIdView, int), CamtErrorView> {
    match read_open(s) {
        Err(e) => Err(e),
        Ok((_name, _attr, n0)) => match opt_child(
            s.skip(n0),
            "IBAN"@,
            seq!["Othr"@],
            text_reader("IBAN"@, "Acct/Id/IBAN"@),
        ) {
            Err(e) => Err(e),
            Ok((ib, m1)) => match ib {
                Some(v) => match finish_elem(s.skip(n0 + m1), "Id"@) {
                    Err(e) => Err(e),
                    Ok(m2) => Ok(
                        (AccountIdView { id: AccountIdKindView::Iban(v) }, n0 + m1 + m2),
                    ),
                },
                None => match req_child(
                    s.skip(n0 + m1),
                    "Othr"@,
                    Seq::empty(),
                    "Acct/Id"@,
                    text_reader("Othr"@, "Acct/Id"@),
                ) {
                    Err(e) => Err(e),
                    Ok((v, m2)) => match finish_elem(s.skip(n0 + m1 + m2), "Id"@) {
                        Err(e) => Err(e),
                        Ok(m3) => Ok(
                            (
                                AccountIdView { id: AccountIdKindView::Other(v) },
                                n0 + m1 + m2 + m3,
                            ),
                        ),
                    },
                },
            },
        },
    }
}

#[verifier::opaque]
pub open spec fn parse_account(s: Seq<char>) -> Result<(AccountView, int), CamtErrorView> {
    match read_open(s) {
        Err(e) => Err(e),
        Ok((_name, _attr, n0)) => match req_child(
            s.skip(n0),
            "Id"@,
            Seq::empty(),
            "Acct/Id"@,
            |x: Seq<char>| parse_account_id(x),
        ) {
            Err(e) => Err(e),
            Ok((idv, m1)) => match finish_elem(s.skip(n0 + m1), "Acct"@) {
                Err(e) => Err(e),
                Ok(m2) => Ok((AccountView { id: idv }, n0 + m1 + m2)),
            },
        },
    }
}

/// Parses a date wrapped in its container element (`BookgDt`, `ValDt`, `Dt`).
#[verifier::opaque]
pub open spec fn parse_wrapped_date(s: Seq<char>, tag: Seq<char>, path: Seq<char>) -> Result<
    (Seq<char>, int),
    CamtErrorView,
> {
    match read_open(s) {
        Err(e) => Err(e),
        Ok((_name, _attr, n0)) => match req_child(
            s.skip(n0),
            "Dt"@,
            Seq::empty(),
            path,
            text_reader("Dt"@, path),
        ) {
            Err(e) => Err(e),
            Ok((v, m1)) => match finish_elem(s.skip(n0 + m1), tag) {
                Err(e) => Err(e),
                Ok(m2) => Ok((v, n0 + m1 + m2)),
            },
        },
    }
}

/// Parses `Bal/Tp` down to its `CdOrPrtry/Cd` code.
#[verifier::opaque]
pub open spec fn parse_balance_type(s: Seq<char>) -> Result<(Seq<char>, int), CamtErrorView> {
    match read_open(s) {
        Err(e) => Err(e),
        Ok((_name, _attr, n0)) => match req_child(
            s.skip(n0),
            "CdOrPrtry"@,
            Seq::empty(),
            "Bal/Tp/CdOrPrtry"@,
            |x: Seq<char>| parse_code_or_proprietary(x),
        ) {
            Err(e) => Err(e),
            Ok((v, m1)) => match finish_elem(s.skip(n0 + m1), "Tp"@) {
                Err(e) => Err(e),
                Ok(m2) => Ok((v, n0 + m1 + m2)),
            },
        },
    }
}

#[verifier::opaque]
pub open spec fn parse_code_or_proprietary(s: Seq<char>) -> Result<(Seq<char>, int), CamtErrorView> {
    match read_open(s) {
        Err(e) => Err(e),
        Ok((_name, _attr, n0)) => match req_child(
            s.skip(n0),
            "Cd"@,
            Seq::empty(),
            "Bal/Tp/CdOrPrtry/Cd"@,
            text_reader("Cd"@, "Bal/Tp/CdOrPrtry/Cd"@),
        ) {
            Err(e) => Err(e),
            Ok((v, m1)) => match finish_elem(s.skip(n0 + m1), "CdOrPrtry"@) {
                Err(e) => Err(e),
                Ok(m2) => Ok((v, n0 + m1 + m2)),
            },
        },
    }
}

#[verifier::opaque]
pub open spec fn parse_balance(s: Seq<char>) -> Result<(BalanceView, int), CamtErrorView> {
    match read_open(s) {
        Err(e) => Err(e),
        Ok((_name, _attr, n0)) => match req_child(
            s.skip(n0),
            "Tp"@,
            Seq::empty(),
            "Bal/Tp"@,
            |x: Seq<char>| parse_balance_type(x),
        ) {
            Err(e) => Err(e),
            Ok((code, m1)) => match req_child(
                s.skip(n0 + m1),
                "Amt"@,
                Seq::empty(),
                "Bal/Amt"@,
                |x: Seq<char>| parse_amount_elem(x, "Amt"@, "Bal/Amt"@),
            ) {
                Err(e) => Err(e),
                Ok((amt, m2)) => match req_child(
                    s.skip(n0 + m1 + m2),
                    "CdtDbtInd"@,
                    Seq::empty(),
                    "Bal/CdtDbtInd"@,
                    text_reader("CdtDbtInd"@, "Bal/CdtDbtInd"@),
                ) {
                    Err(e) => Err(e),
                    Ok((cdi, m3)) => match req_child(
                        s.skip(n0 + m1 + m2 + m3),
                        "Dt"@,
                        Seq::empty(),
                        "Bal/Dt"@,
                        |x: Seq<char>| parse_wrapped_date(x, "Dt"@, "Bal/Dt/Dt"@),
                    ) {
                        Err(e) => Err(e),
                        Ok((dt, m4)) => match finish_elem(s.skip(n0 + m1 + m2 + m3 + m4), "Bal"@) {
                            Err(e) => Err(e),
                            Ok(m5) => Ok(
                                (
                                    BalanceView {
                                        type_: BalanceTypeView {
                                            code_or_proprietary: CodeOrProprietaryView {
                                                code: code,
                                            },
                                        },
                                        amount: amt,
                                        credit_debit_indicator: cdi,
                                        date: BalanceDateView { date: dt },
                                    },
                                    n0 + m1 + m2 + m3 + m4 + m5,
                                ),
                            ),
                        },
                    },
                },
            },
        },
    }
}

/// Parses a related party (`Dbtr` or `Cdtr`): name and postal address.
#[verifier::opaque]
pub open spec fn parse_party(s: Seq<char>, tag: Seq<char>, nm_path: Seq<char>, adr_path: Seq<char>)
    -> Result<((Seq<char>, PostalAddressView), int), CamtErrorView> {
    match read_open(s) {
        Err(e) => Err(e),
        Ok((_name, _attr, n0)) => match req_child(
            s.skip(n0),
            "Nm"@,
            Seq::empty(),
            nm_path,
            text_reader("Nm"@, nm_path),
        ) {
            Err(e) => Err(e),
            Ok((nm, m1)) => match req_child(
                s.skip(n0 + m1),
                "PstlAdr"@,
                Seq::empty(),
                adr_path,
                |x: Seq<char>| parse_postal_address(x, adr_path),
            ) {
                Err(e) => Err(e),
                Ok((adr, m2)) => match finish_elem(s.skip(n0 + m1 + m2), tag) {
                    Err(e) => Err(e),
                    Ok(m3) => Ok(((nm, adr), n0 + m1 + m2 + m3)),
                },
            },
        },
    }
}

#[verifier::opaque]
pub open spec fn parse_postal_address(s: Seq<char>, adr_path: Seq<char>) -> Result<
    (PostalAddressView, int),
    CamtErrorView,
> {
    match read_open(s) {
        Err(e) => Err(e),
        Ok((_name, _attr, n0)) => match parse_list(
            s.skip(n0),
            "AdrLine"@,
            text_reader("AdrLine"@, adr_path),
        ) {
            Err(e) => Err(e),
            Ok((lines, m1)) => match finish_elem(s.skip(n0 + m1), "PstlAdr"@) {
                Err(e) => Err(e),
                Ok(m2) => Ok((PostalAddressView { address_lines: lines }, n0 + m1 + m2)),
            },
        },
    }
}

#[verifier::opaque]
pub open spec fn parse_references(s: Seq<char>) -> Result<(ReferencesView, int), CamtErrorView> {
    match read_open(s) {
        Err(e) => Err(e),
        Ok((_name, _attr, n0)) => match req_child(
            s.skip(n0),
            "AcctSvcrRef"@,
            Seq::empty(),
            "TxDtls/Refs/AcctSvcrRef"@,
            text_reader("AcctSvcrRef"@, "TxDtls/Refs/AcctSvcrRef"@),
        ) {
            Err(e) => Err(e),
            Ok((v, m1)) => match finish_elem(s.skip(n0 + m1), "Refs"@) {
                Err(e) => Err(e),
                Ok(m2) => Ok((ReferencesView { account_servicer_reference: v }, n0 + m1 + m2)),
            },
        },
    }
}

#[verifier::opaque]
pub open spec fn parse_amount_details(s: Seq<char>) -> Result<(AmountView, int), CamtErrorView> {
    match read_open(s) {
        Err(e) => Err(e),
        Ok((_name, _attr, n0)) => match req_child(
            s.skip(n0),
            "TxAmt"@,
            Seq::empty(),
            "TxDtls/AmtDtls/TxAmt"@,
            |x: Seq<char>| parse_amount_elem(x, "TxAmt"@, "TxDtls/AmtDtls/TxAmt"@),
        ) {
            Err(e) => Err(e),
            Ok((v, m1)) => match finish_elem(s.skip(n0 + m1), "AmtDtls"@) {
                Err(e) => Err(e),
                Ok(m2) => Ok((v, n0 + m1 + m2)),
            },
        },
    }
}

#[verifier::opaque]
pub open spec fn parse_related_parties(s: Seq<char>) -> Result<
    (RelatedPartiesView, int),
    CamtErrorView,
> {
    match read_open(s) {
        Err(e) => Err(e),
        Ok((_name, _attr, n0)) => match req_child(
            s.skip(n0),
            "Dbtr"@,
            Seq::empty(),
            "TxDtls/RltdPties/Dbtr"@,
            |x: Seq<char>| parse_party(
                x,
                "Dbtr"@,
                "TxDtls/RltdPties/Dbtr/Nm"@,
                "Dbtr/PstlAdr/AdrLine"@,
            ),
        ) {
            Err(e) => Err(e),
            Ok((db, m1)) => match req_child(
                s.skip(n0 + m1),
                "Cdtr"@,
                Seq::empty(),
                "TxDtls/RltdPties/Cdtr"@,
                |x: Seq<char>| parse_party(
                    x,
                    "Cdtr"@,
                    "TxDtls/RltdPties/Cdtr/Nm"@,
                    "Cdtr/PstlAdr/AdrLine"@,
                ),
            ) {
                Err(e) => Err(e),
                Ok((cd, m2)) => match finish_elem(s.skip(n0 + m1 + m2), "RltdPties"@) {
                    Err(e) => Err(e),
                    Ok(m3) => Ok(
                        (
                            RelatedPartiesView {
                                debtor: DebtorView { name: db.0, postal_address: db.1 },
                                creditor: CreditorView { name: cd.0, postal_address: cd.1 },
                            },
                            n0 + m1 + m2 + m3,
                        ),
                    ),
                },
            },
        },
    }
}

#[verifier::opaque]
pub open spec fn parse_remittance_information(s: Seq<char>) -> Result<
    (RemittanceInformationView, int),
    CamtErrorView,
> {
    match read_open(s) {
        Err(e) => Err(e),
        Ok((_name, _attr, n0)) => match req_child(
            s.skip(n0),
            "Ustrd"@,
            Seq::empty(),
            "TxDtls/RmtInf/Ustrd"@,
            text_reader("Ustrd"@, "TxDtls/RmtInf/Ustrd"@),
        ) {
            Err(e) => Err(e),
            Ok((v, m1)) => match finish_elem(s.skip(n0 + m1), "RmtInf"@) {
                Err(e) => Err(e),
                Ok(m2) => Ok((RemittanceInformationView { unstructured: v }, n0 + m1 + m2)),
            },
        },
    }
}

#[verifier::opaque]
pub open spec fn parse_tx_details(s: Seq<char>) -> Result<
    (TransactionDetailsView, int),
    CamtErrorView,
> {
    match read_open(s) {
        Err(e) => Err(e),
        Ok((_name, _attr, n0)) => match req_child(
            s.skip(n0),
            "Refs"@,
            Seq::empty(),
            "TxDtls/Refs"@,
            |x: Seq<char>| parse_references(x),
        ) {
            Err(e) => Err(e),
            Ok((refs, m1)) => match req_child(
                s.skip(n0 + m1),
                "AmtDtls"@,
                Seq::empty(),
                "TxDtls/AmtDtls"@,
                |x: Seq<char>| parse_amount_details(x),
            ) {
                Err(e) => Err(e),
                Ok((amt, m2)) => match req_child(
                    s.skip(n0 + m1 + m2),
                    "RltdPties"@,
                    Seq::empty(),
                    "TxDtls/RltdPties"@,
                    |x: Seq<char>| parse_related_parties(x),
                ) {
                    Err(e) => Err(e),
                    Ok((rp, m3)) => match req_child(
                        s.skip(n0 + m1 + m2 + m3),
                        "RmtInf"@,
                        Seq::empty(),
                        "TxDtls/RmtInf"@,
                        |x: Seq<char>| parse_remittance_information(x),
                    ) {
                        Err(e) => Err(e),
                        Ok((rmt, m4)) => match finish_elem(
                            s.skip(n0 + m1 + m2 + m3 + m4),
                            "TxDtls"@,
                        ) {
                            Err(e) => Err(e),
                            Ok(m5) => Ok(
                                (
                                    TransactionDetailsView {
                                        references: refs,
                                        amount_details: AmountDetailsView {
                                            transaction_amount: amt,
                                        },
                                        related_parties: rp,
                                        remittance_information: rmt,
                                    },
                                    n0 + m1 + m2 + m3 + m4 + m5,
                                ),
                            ),
                        },
                    },
                },
            },
        },
    }
}

#[verifier::opaque]
pub open spec fn parse_entry_details(s: Seq<char>) -> Result<
    (EntryDetailsView, int),
    CamtErrorView,
> {
    match read_open(s) {
        Err(e) => Err(e),
        Ok((_name, _attr, n0)) => match parse_list(
            s.skip(n0),
            "TxDtls"@,
            tx_details_reader(),
        ) {
            Err(e) => Err(e),
            Ok((ts, m1)) => match finish_elem(s.skip(n0 + m1), "NtryDtls"@) {
                Err(e) => Err(e),
                Ok(m2) => Ok((EntryDetailsView { transaction_details: ts }, n0 + m1 + m2)),
            },
        },
    }
}

#[verifier::opaque]
pub open spec fn parse_bank_transaction_code(s: Seq<char>) -> Result<
    (BankTransactionCodeView, int),
    CamtErrorView,
> {
    match read_open(s) {
        Err(e) => Err(e),
        Ok((_name, _attr, n0)) => match req_child(
            s.skip(n0),
            "Domn"@,
            Seq::empty(),
            "Ntry/BkTxCd/Domn"@,
            |x: Seq<char>| parse_domain(x),
        ) {
            Err(e) => Err(e),
            Ok((dom, m1)) => match finish_elem(s.skip(n0 + m1), "BkTxCd"@) {
                Err(e) => Err(e),
                Ok(m2) => Ok((BankTransactionCodeView { domain: dom }, n0 + m1 + m2)),
            },
        },
    }
}

#[verifier::opaque]
pub open spec fn parse_domain(s: Seq<char>) -> Result<(DomainView, int), CamtErrorView> {
    match read_open(s) {
        Err(e) => Err(e),
        Ok((_name, _attr, n0)) => match req_child(
            s.skip(n0),
            "Cd"@,
            seq!["Fmly"@],
            "Ntry/BkTxCd/Domn/Cd"@,
            text_reader("Cd"@, "Ntry/BkTxCd/Domn/Cd"@),
        ) {
            Err(e) => Err(e),
            Ok((code, m1)) => match req_child(
                s.skip(n0 + m1),
                "Fmly"@,
                Seq::empty(),
                "Ntry/BkTxCd/Domn/Fmly"@,
                |x: Seq<char>| parse_family(x),
            ) {
                Err(e) => Err(e),
                Ok((fam, m2)) => match finish_elem(s.skip(n0 + m1 + m2), "Domn"@) {
                    Err(e) => Err(e),
                    Ok(m3) => Ok((DomainView { code: code, family: fam }, n0 + m1 + m2 + m3)),
                },
            },
        },
    }
}

#[verifier::opaque]
pub open spec fn parse_family(s: Seq<char>) -> Result<(FamilyView, int), CamtErrorView> {
    match read_open(s) {
        Err(e) => Err(e),
        Ok((_name, _attr, n0)) => match req_child(
            s.skip(n0),
            "Cd"@,
            seq!["SubFmlyCd"@],
            "Ntry/BkTxCd/Domn/Fmly/Cd"@,
            text_reader("Cd"@, "Ntry/BkTxCd/Domn/Fmly/Cd"@),
        ) {
            Err(e) => Err(e),
            Ok((code, m1)) => match req_child(
                s.skip(n0 + m1),
                "SubFmlyCd"@,
                Seq::empty(),
                "Ntry/BkTxCd/Domn/Fmly/SubFmlyCd"@,
                text_reader("SubFmlyCd"@, "Ntry/BkTxCd/Domn/Fmly/SubFmlyCd"@),
            ) {
                Err(e) => Err(e),
                Ok((sfc, m2)) => match finish_elem(s.skip(n0 + m1 + m2), "Fmly"@) {
                    Err(e) => Err(e),
                    Ok(m3) => Ok(
                        (FamilyView { code: code, sub_family_code: sfc }, n0 + m1 + m2 + m3),
                    ),
                },
            },
        },
    }
}

#[verifier::opaque]
pub open spec fn parse_entry(s: Seq<char>) -> Result<(EntryView, int), CamtErrorView> {
    match read_open(s) {
        Err(e) => Err(e),
        Ok((_name, _attr, n0)) => match req_child(
            s.skip(n0),
            "Amt"@,
            Seq::empty(),
            "Ntry/Amt"@,
            |x: Seq<char>| parse_amount_elem(x, "Amt"@, "Ntry/Amt"@),
        ) {
            Err(e) => Err(e),
            Ok((amt, m1)) => match req_child(
                s.skip(n0 + m1),
                "CdtDbtInd"@,
                Seq::empty(),
                "Ntry/CdtDbtInd"@,
                text_reader("CdtDbtInd"@, "Ntry/CdtDbtInd"@),
            ) {
                Err(e) => Err(e),
                Ok((cdi, m2)) => match req_child(
                    s.skip(n0 + m1 + m2),
                    "Sts"@,
                    Seq::empty(),
                    "Ntry/Sts"@,
                    text_reader("Sts"@, "Ntry/Sts"@),
                ) {
                    Err(e) => Err(e),
                    Ok((sts, m3)) => match req_child(
                        s.skip(n0 + m1 + m2 + m3),
                        "BookgDt"@,
                        Seq::empty(),
                        "Ntry/BookgDt"@,
                        |x: Seq<char>| parse_wrapped_date(x, "BookgDt"@, "Ntry/BookgDt/Dt"@),
                    ) {
                        Err(e) => Err(e),
                        Ok((bdt, m4)) => match req_child(
                            s.skip(n0 + m1 + m2 + m3 + m4),
                            "ValDt"@,
                            Seq::empty(),
                            "Ntry/ValDt"@,
                            |x: Seq<char>| parse_wrapped_date(x, "ValDt"@, "Ntry/ValDt/Dt"@),
                        ) {
                            Err(e) => Err(e),
                            Ok((vdt, m5)) => match req_child(
                                s.skip(n0 + m1 + m2 + m3 + m4 + m5),
                                "AcctSvcrRef"@,
                                Seq::empty(),
                                "Ntry/AcctSvcrRef"@,
                                text_reader("AcctSvcrRef"@, "Ntry/AcctSvcrRef"@),
                            ) {
                                Err(e) => Err(e),
                                Ok((asr, m6)) => match req_child(
                                    s.skip(n0 + m1 + m2 + m3 + m4 + m5 + m6),
                                    "BkTxCd"@,
                                    Seq::empty(),
                                    "Ntry/BkTxCd"@,
                                    |x: Seq<char>| parse_bank_transaction_code(x),
                                ) {
                                    Err(e) => Err(e),
                                    Ok((btc, m7)) => match req_child(
                                        s.skip(n0 + m1 + m2 + m3 + m4 + m5 + m6 + m7),
                                        "NtryDtls"@,
                                        Seq::empty(),
                                        "Ntry/NtryDtls"@,
                                        |x: Seq<char>| parse_entry_details(x),
                                    ) {
                                        Err(e) => Err(e),
                                        Ok((ed, m8)) => match finish_elem(
                                            s.skip(n0 + m1 + m2 + m3 + m4 + m5 + m6 + m7 + m8),
                                            "Ntry"@,
                                        ) {
                                            Err(e) => Err(e),
                                            Ok(m9) => Ok(
                                                (
                                                    EntryView {
                                                        amount: amt,
                                                        credit_debit_indicator: cdi,
                                                        status: sts,
                                                        booking_date: EntryDateView { date: bdt },
                                                        value_date: EntryDateView { date: vdt },
                                                        account_servicer_reference: asr,
                                                        bank_transaction_code: btc,
                                                        entry_details: ed,
                                                    },
                                                    n0 + m1 + m2 + m3 + m4 + m5 + m6 + m7 + m8
                                                        + m9,
                                                ),
                                            ),
                                        },
                                    },
                                },
                            },
                        },
                    },
                },
            },
        },
    }
}

#[verifier::opaque]
pub open spec fn parse_statement(s: Seq<char>) -> Result<(StatementView, int), CamtErrorView> {
    match read_open(s) {
        Err(e) => Err(e),
        Ok((_name, _attr, n0)) => match req_child(
            s.skip(n0),
            "Id"@,
            seq!["ElctrncSeqNb"@, "LglSeqNb"@, "CreDtTm"@],
            "Stmt/Id"@,
            text_reader("Id"@, "Stmt/Id"@),
        ) {
            Err(e) => Err(e),
            Ok((id, m1)) => match opt_child(
                s.skip(n0 + m1),
                "ElctrncSeqNb"@,
                seq!["LglSeqNb"@, "CreDtTm"@],
                num_reader("ElctrncSeqNb"@, "Stmt/ElctrncSeqNb"@),
            ) {
                Err(e) => Err(e),
                Ok((esn, m2)) => match opt_child(
                    s.skip(n0 + m1 + m2),
                    "LglSeqNb"@,
                    seq!["CreDtTm"@],
                    num_reader("LglSeqNb"@, "Stmt/LglSeqNb"@),
                ) {
                    Err(e) => Err(e),
                    Ok((lsn, m3)) => match req_child(
                        s.skip(n0 + m1 + m2 + m3),
                        "CreDtTm"@,
                        seq!["Acct"@],
                        "Stmt/CreDtTm"@,
                        text_reader("CreDtTm"@, "Stmt/CreDtTm"@),
                    ) {
                        Err(e) => Err(e),
                        Ok((cre, m4)) => match req_child(
                            s.skip(n0 + m1 + m2 + m3 + m4),
                            "Acct"@,
                            seq!["Bal"@, "Ntry"@],
                            "Stmt/Acct"@,
                            |x: Seq<char>| parse_account(x),
                        ) {
                            Err(e) => Err(e),
                            Ok((acct, m5)) => match opt_child(
                                s.skip(n0 + m1 + m2 + m3 + m4 + m5),
                                "Bal"@,
                                seq!["Ntry"@],
                                |x: Seq<char>| parse_balance(x),
                            ) {
                                Err(e) => Err(e),
                                Ok((bal, m6)) => match parse_list(
                                    s.skip(n0 + m1 + m2 + m3 + m4 + m5 + m6),
                                    "Ntry"@,
                                    entry_reader(),
                                ) {
                                    Err(e) => Err(e),
                                    Ok((entries, m7)) => match finish_elem(
                                        s.skip(n0 + m1 + m2 + m3 + m4 + m5 + m6 + m7),
                                        "Stmt"@,
                                    ) {
                                        Err(e) => Err(e),
                                        Ok(m8) => Ok(
                                            (
                                                StatementView {
                                                    id: id,
                                                    electronic_sequence_number: esn,
                                                    legal_sequence_number: lsn,
                                                    creation_date_time: cre,
                                                    account: acct,
                                                    balance: bal,
                                                    entries: entries,
                                                },
                                                n0 + m1 + m2 + m3 + m4 + m5 + m6 + m7 + m8,
                                            ),
                                        ),
                                    },
                                },
                            },
                        },
                    },
                },
            },
        },
    }
}

/// Parses the `BkToCstmrStmt` envelope: the group header, then one or more
/// statements in order.
#[verifier::opaque]
pub open spec fn parse_envelope(s: Seq<char>) -> Result<
    (BankToCustomerStatementView, int),
    CamtErrorView,
> {
    match read_open(s) {
        Err(e) => Err(e),
        Ok((_name, _attr, n0)) => match req_child(
            s.skip(n0),
            "GrpHdr"@,
            seq!["Stmt"@],
            "BkToCstmrStmt/GrpHdr"@,
            |x: Seq<char>| parse_group_header(x),
        ) {
            Err(e) => Err(e),
            Ok((gh, m1)) => match parse_list(
                s.skip(n0 + m1),
                "Stmt"@,
                statement_reader(),
            ) {
                Err(e) => Err(e),
                Ok((stmts, m2)) => if stmts.len() == 0 {
                    Err(CamtErrorView::MissingField("BkToCstmrStmt/Stmt"@))
                } else {
                    match finish_elem(s.skip(n0 + m1 + m2), "BkToCstmrStmt"@) {
                        Err(e) => Err(e),
                        Ok(m3) => Ok(
                            (
                                BankToCustomerStatementView {
                                    group_header: gh,
                                    statements: stmts,
                                },
                                n0 + m1 + m2 + m3,
                            ),
                        ),
                    }
                },
            },
        },
    }
}

/// The whole-document reader: leading text is ignored, the root must be
/// `Document` (else the structure is unsupported), an `xmlns` attribute
/// overrides the fixed namespace, and nothing but trailing text may follow
/// the root's closing tag.
#[verifier::opaque]
pub open spec fn parse_camt053_spec(s: Seq<char>) -> Result<DocumentView, CamtErrorView> {
    let t = text_end(s, 0);
    if t >= s.len() {
        Err(CamtErrorView::UnsupportedStructure("Document"@))
    } else {
        match read_open(s.skip(t)) {
            Err(e) => Err(e),
            Ok((name, attr, n0)) => if name != "Document"@ {
                Err(CamtErrorView::UnsupportedStructure(name))
            } else {
                let xmlns = match attr {
                    Some((an, av)) => if an == "xmlns"@ {
                        av
                    } else {
                        spec_default_xmlns()
                    },
                    None => spec_default_xmlns(),
                };
                let p0 = t + n0;
                match req_child(
                    s.skip(p0),
                    "BkToCstmrStmt"@,
                    Seq::empty(),
                    "Document/BkToCstmrStmt"@,
                    |x: Seq<char>| parse_envelope(x),
                ) {
                    Err(e) => Err(e),
                    Ok((env, m1)) => match finish_elem(s.skip(p0 + m1), "Document"@) {
                        Err(e) => Err(e),
                        Ok(m2) => {
                            let p2 = p0 + m1 + m2;
                            if text_end(s, p2) == s.len() {
                                Ok(DocumentView { xmlns: xmlns, statement: env })
                            } else {
                                Err(bad_xml())
                            }
                        },
                    },
                }
            },
        }
    }
}


} // verus!

// ---------------------------------------------------------------------------
// The executable parser. Each function suffixed `_x` is the executable
// mirror of the spec reader of the same base name: it works at an absolute
// position `b` in the character buffer and returns exactly what the spec
// reader returns on the suffix starting at `b`.
// ---------------------------------------------------------------------------

use crate::chars::push_char;
use crate::chars::range_eq_str;
use crate::model::string_views;
use crate::model::Account;
use crate::model::AccountId;
use crate::model::AccountIdKind;
use crate::model::Amount;
use crate::model::Balance;
use crate::model::BalanceDate;
use crate::model::BalanceType;
use crate::model::CodeOrProprietary;
use crate::model::GroupHeader;
use crate::model::AmountDetails;
use crate::model::BankTransactionCode;
use crate::model::Creditor;
use crate::model::Debtor;
use crate::model::Domain;
use crate::model::EntryDetails;
use crate::model::Family;
use crate::model::PostalAddress;
use crate::model::References;
use crate::model::RelatedParties;
use crate::model::RemittanceInformation;
use crate::model::TransactionDetails;
use crate::model::BankToCustomerStatement;
use crate::model::Document;
use crate::model::Entry;
use crate::model::EntryDate;
use crate::model::Statement;
use crate::serialize::CamtError;

verus! {

/// The executable form of the `bad_xml` error.
fn bad_xml_err() -> (r: CamtError)
    ensures
        r@ == bad_xml(),
{
    let r = CamtError::MalformedValue { element: String::from_str("#xml"), text: String::new() };
    assert(r@ =~= bad_xml());
    r
}

fn missing_err(path: &str) -> (r: CamtError)
    ensures
        r@ == CamtErrorView::MissingField(path@),
{
    CamtError::MissingField(String::from_str(path))
}

/// Copies a stretch of the buffer into a fresh string.
fn string_of_range(v: &Vec<char>, lo: usize, hi: usize) -> (r: String)
    requires
        lo <= hi <= v@.len(),
    ensures
        r@ == v@.subrange(lo as int, hi as int),
{
    let mut out = String::new();
    let mut k = lo;
    while k < hi
        invariant
            lo <= k <= hi <= v@.len(),
            out@ == v@.subrange(lo as int, k as int),
        decreases hi - k,
    {
        push_char(&mut out, v[k]);
        k = k + 1;
        assert(out@ =~= v@.subrange(lo as int, k as int));
    }
    out
}

fn scan_name_x(v: &Vec<char>, b: usize, i: usize) -> (r: usize)
    requires
        b <= v@.len(),
        i <= v@.len() - b,
    ensures
        r as int == name_end(v@.skip(b as int), i as int),
        i <= r <= v@.len() - b,
{
    let ghost s = v@.skip(b as int);
    let n = v.len();
    let mut cur = i;
    loop
        invariant
            b <= n == v@.len(),
            s == v@.skip(b as int),
            i <= cur,
            b + cur <= n,
            name_end(s, cur as int) == name_end(s, i as int),
        decreases n - b - cur,
    {
        if b + cur == n {
            assert(name_end(s, cur as int) == cur as int);
            return cur;
        }
        let c = v[b + cur];
        assert(s[cur as int] == v@[b + cur]);
        let u = c as u32;
        let nameish = (97 <= u && u <= 122) || (65 <= u && u <= 90) || (48 <= u && u <= 57);
        assert(nameish == is_name_char(s[cur as int]));
        if !nameish {
            assert(name_end(s, cur as int) == cur as int);
            return cur;
        }
        assert(name_end(s, cur as int) == name_end(s, cur + 1 as int));
        cur = cur + 1;
    }
}

fn scan_text_x(v: &Vec<char>, b: usize, i: usize) -> (r: usize)
    requires
        b <= v@.len(),
        i <= v@.len() - b,
    ensures
        r as int == text_end(v@.skip(b as int), i as int),
        i <= r <= v@.len() - b,
{
    let ghost s = v@.skip(b as int);
    let n = v.len();
    let mut cur = i;
    loop
        invariant
            b <= n == v@.len(),
            s == v@.skip(b as int),
            i <= cur,
            b + cur <= n,
            text_end(s, cur as int) == text_end(s, i as int),
        decreases n - b - cur,
    {
        if b + cur == n {
            assert(text_end(s, cur as int) == cur as int);
            return cur;
        }
        let c = v[b + cur];
        assert(s[cur as int] == v@[b + cur]);
        if c == '<' {
            assert(text_end(s, cur as int) == cur as int);
            return cur;
        }
        assert(text_end(s, cur as int) == text_end(s, cur + 1 as int));
        cur = cur + 1;
    }
}

fn scan_digits_x(v: &Vec<char>, b: usize, i: usize) -> (r: usize)
    requires
        b <= v@.len(),
        i <= v@.len() - b,
    ensures
        r as int == digits_end(v@.skip(b as int), i as int),
        i <= r <= v@.len() - b,
{
    let ghost s = v@.skip(b as int);
    let n = v.len();
    let mut cur = i;
    loop
        invariant
            b <= n == v@.len(),
            s == v@.skip(b as int),
            i <= cur,
            b + cur <= n,
            digits_end(s, cur as int) == digits_end(s, i as int),
        decreases n - b - cur,
    {
        if b + cur == n {
            assert(digits_end(s, cur as int) == cur as int);
            return cur;
        }
        let c = v[b + cur];
        assert(s[cur as int] == v@[b + cur]);
        let u = c as u32;
        if !(48 <= u && u <= 57) {
            assert(!is_digit(s[cur as int]));
            assert(digits_end(s, cur as int) == cur as int);
            return cur;
        }
        assert(digits_end(s, cur as int) == digits_end(s, cur + 1 as int));
        cur = cur + 1;
    }
}

fn scan_quote_x(v: &Vec<char>, b: usize, i: usize) -> (r: usize)
    requires
        b <= v@.len(),
        i <= v@.len() - b,
    ensures
        r as int == quote_end(v@.skip(b as int), i as int),
        i <= r <= v@.len() - b,
{
    let ghost s = v@.skip(b as int);
    let n = v.len();
    let mut cur = i;
    loop
        invariant
            b <= n == v@.len(),
            s == v@.skip(b as int),
            i <= cur,
            b + cur <= n,
            quote_end(s, cur as int) == quote_end(s, i as int),
        decreases n - b - cur,
    {
        if b + cur == n {
            assert(quote_end(s, cur as int) == cur as int);
            return cur;
        }
        let c = v[b + cur];
        assert(s[cur as int] == v@[b + cur]);
        if c == '"' {
            assert(quote_end(s, cur as int) == cur as int);
            return cur;
        }
        assert(quote_end(s, cur as int) == quote_end(s, cur + 1 as int));
        cur = cur + 1;
    }
}

/// Unescapes the buffer stretch `[lo, hi)`; `None` is a bad entity.
fn unescape_range(v: &Vec<char>, lo: usize, hi: usize) -> (r: Option<String>)
    requires
        lo <= hi <= v@.len(),
    ensures
        ({
            let u = unescape(v@.subrange(lo as int, hi as int));
            match r {
                Some(out) => u == Some(out@),
                None => u is None,
            }
        }),
{
    let ghost sub = v@.subrange(lo as int, hi as int);
    let mut out = String::new();
    let mut k = lo;
    proof {
        assert(sub.skip(0) =~= sub);
        match unescape(sub) {
            None => {},
            Some(t) => {
                assert(Seq::<char>::empty() + t =~= t);
            },
        }
    }
    loop
        invariant
            lo <= k <= hi <= v@.len(),
            sub == v@.subrange(lo as int, hi as int),
            unescape(sub) == (match unescape(sub.skip(k - lo as int)) {
                None => None::<Seq<char>>,
                Some(t) => Some(out@ + t),
            }),
        decreases hi - k,
    {
        let ghost rem = sub.skip(k - lo as int);
        if k == hi {
            proof {
                assert(rem =~= Seq::<char>::empty());
                assert(out@ + Seq::<char>::empty() =~= out@);
            }
            return Some(out);
        }
        let c = v[k];
        proof {
            assert(rem.len() == hi - k);
            assert forall|j: int| 0 <= j < rem.len() implies rem[j] == v@[k + j] by {}
            assert(rem[0] == c);
        }
        if c == '&' {
            let (rep, adv): (char, usize) = if hi - k >= 4 && v[k + 1] == 'l' && v[k + 2] == 't'
                && v[k + 3] == ';' {
                proof {
                    reveal_strlit("&lt;");
                    assert(rem.subrange(0, 4) =~= "&lt;"@);
                }
                ('<', 4)
            } else if hi - k >= 4 && v[k + 1] == 'g' && v[k + 2] == 't' && v[k + 3] == ';' {
                proof {
                    reveal_strlit("&lt;");
                    reveal_strlit("&gt;");
                    assert(rem.subrange(0, 4) =~= "&gt;"@);
                    assert(rem.subrange(0, 4)[1] == 'g');
                    assert(rem.subrange(0, 4) != "&lt;"@);
                }
                ('>', 4)
            } else if hi - k >= 5 && v[k + 1] == 'a' && v[k + 2] == 'm' && v[k + 3] == 'p' && v[k
                + 4] == ';' {
                proof {
                    reveal_strlit("&lt;");
                    reveal_strlit("&gt;");
                    reveal_strlit("&amp;");
                    assert(rem.subrange(0, 5) =~= "&amp;"@);
                    if rem.len() >= 4 {
                        assert(rem.subrange(0, 4)[1] == 'a');
                        assert(rem.subrange(0, 4) != "&lt;"@);
                        assert(rem.subrange(0, 4) != "&gt;"@);
                    }
                }
                ('&', 5)
            } else if hi - k >= 6 && v[k + 1] == 'q' && v[k + 2] == 'u' && v[k + 3] == 'o' && v[k
                + 4] == 't' && v[k + 5] == ';' {
                proof {
                    reveal_strlit("&lt;");
                    reveal_strlit("&gt;");
                    reveal_strlit("&amp;");
                    reveal_strlit("&quot;");
                    assert(rem.subrange(0, 6) =~= "&quot;"@);
                    if rem.len() >= 4 {
                        assert(rem.subrange(0, 4)[1] == 'q');
                        assert(rem.subrange(0, 4) != "&lt;"@);
                        assert(rem.subrange(0, 4) != "&gt;"@);
                    }
                    if rem.len() >= 5 {
                        assert(rem.subrange(0, 5)[1] == 'q');
                        assert(rem.subrange(0, 5) != "&amp;"@);
                    }
                }
                ('"', 6)
            } else if hi - k >= 6 && v[k + 1] == 'a' && v[k + 2] == 'p' && v[k + 3] == 'o' && v[k
                + 4] == 's' && v[k + 5] == ';' {
                proof {
                    reveal_strlit("&lt;");
                    reveal_strlit("&gt;");
                    reveal_strlit("&amp;");
                    reveal_strlit("&quot;");
                    reveal_strlit("&apos;");
                    assert(rem.subrange(0, 6) =~= "&apos;"@);
                    if rem.len() >= 4 {
                        assert(rem.subrange(0, 4)[1] == 'a');
                        assert(rem.subrange(0, 4)[2] == 'p');
                        assert(rem.subrange(0, 4) != "&lt;"@);
                        assert(rem.subrange(0, 4) != "&gt;"@);
                    }
                    if rem.len() >= 5 {
                        assert(rem.subrange(0, 5)[2] == 'p');
                        assert(rem.subrange(0, 5) != "&amp;"@);
                    }
                    assert(rem.subrange(0, 6)[1] == 'a');
                    assert(rem.subrange(0, 6) != "&quot;"@);
                }
                ('\'', 6)
            } else {
                proof {
                    reveal_strlit("&lt;");
                    reveal_strlit("&gt;");
                    reveal_strlit("&amp;");
                    reveal_strlit("&quot;");
                    reveal_strlit("&apos;");
                    if rem.len() >= 4 && rem.subrange(0, 4) == "&lt;"@ {
                        assert(rem[1] == rem.subrange(0, 4)[1]);
                        assert(rem[2] == rem.subrange(0, 4)[2]);
                        assert(rem[3] == rem.subrange(0, 4)[3]);
                        assert(false);
                    }
                    if rem.len() >= 4 && rem.subrange(0, 4) == "&gt;"@ {
                        assert(rem[1] == rem.subrange(0, 4)[1]);
                        assert(rem[2] == rem.subrange(0, 4)[2]);
                        assert(rem[3] == rem.subrange(0, 4)[3]);
                        assert(false);
                    }
                    if rem.len() >= 5 && rem.subrange(0, 5) == "&amp;"@ {
                        assert(rem[1] == rem.subrange(0, 5)[1]);
                        assert(rem[2] == rem.subrange(0, 5)[2]);
                        assert(rem[3] == rem.subrange(0, 5)[3]);
                        assert(rem[4] == rem.subrange(0, 5)[4]);
                        assert(false);
                    }
                    if rem.len() >= 6 && rem.subrange(0, 6) == "&quot;"@ {
                        assert(rem[1] == rem.subrange(0, 6)[1]);
                        assert(rem[2] == rem.subrange(0, 6)[2]);
                        assert(rem[3] == rem.subrange(0, 6)[3]);
                        assert(rem[4] == rem.subrange(0, 6)[4]);
                        assert(rem[5] == rem.subrange(0, 6)[5]);
                        assert(false);
                    }
                    if rem.len() >= 6 && rem.subrange(0, 6) == "&apos;"@ {
                        assert(rem[1] == rem.subrange(0, 6)[1]);
                        assert(rem[2] == rem.subrange(0, 6)[2]);
                        assert(rem[3] == rem.subrange(0, 6)[3]);
                        assert(rem[4] == rem.subrange(0, 6)[4]);
                        assert(rem[5] == rem.subrange(0, 6)[5]);
                        assert(false);
                    }
                    assert(unescape(rem) is None);
                }
                return None;
            };
            let ghost out0 = out@;
            push_char(&mut out, rep);
            proof {
                let t0 = unescape(rem.skip(adv as int));
                assert(unescape(rem) == cons_unescaped(rep, t0));
                assert(rem.skip(adv as int) =~= sub.skip(k + adv - lo as int));
                match t0 {
                    None => {},
                    Some(t) => {
                        assert(out0 + (seq![rep] + t) =~= (out0 + seq![rep]) + t);
                    },
                }
            }
            k = k + adv;
        } else {
            let ghost out0 = out@;
            push_char(&mut out, c);
            proof {
                let t0 = unescape(rem.skip(1));
                assert(unescape(rem) == cons_unescaped(c, t0));
                assert(rem.skip(1) =~= sub.skip(k + 1 - lo as int));
                match t0 {
                    None => {},
                    Some(t) => {
                        assert(out0 + (seq![c] + t) =~= (out0 + seq![c]) + t);
                    },
                }
            }
            k = k + 1;
        }
    }
}

/// An opening tag as the executable reader hands it back: absolute index
/// ranges into the buffer for the element name and the attribute name, the
/// unescaped attribute value if one was present, and the absolute index just
/// past the `>`.
struct OpenTag {
    name_lo: usize,
    name_hi: usize,
    attr_name_lo: usize,
    attr_name_hi: usize,
    attr_value: Option<String>,
    next: usize,
}

fn read_open_x(v: &Vec<char>, b: usize) -> (r: Result<OpenTag, CamtError>)
    requires
        b <= v@.len(),
    ensures
        ({
            let sr = read_open(v@.skip(b as int));
            match r {
                Ok(o) => sr is Ok && ({
                    let (name, attr, n) = sr->Ok_0;
                    &&& name == v@.subrange(o.name_lo as int, o.name_hi as int)
                    &&& b <= o.name_lo <= o.name_hi <= v@.len()
                    &&& n == o.next - b
                    &&& b < o.next <= v@.len()
                    &&& match (attr, o.attr_value) {
                        (None, None) => true,
                        (Some((an, av)), Some(sv)) => an == v@.subrange(
                            o.attr_name_lo as int,
                            o.attr_name_hi as int,
                        ) && av == sv@ && b <= o.attr_name_lo <= o.attr_name_hi <= v@.len(),
                        _ => false,
                    }
                }),
                Err(e) => sr is Err && e@ == sr->Err_0,
            }
        }),
{
    let ghost s = v@.skip(b as int);
    let n = v.len();
    if b == n || v[b] != '<' {
        return Err(bad_xml_err());
    }
    assert(s[0] == '<');
    let ne = scan_name_x(v, b, 1);
    if ne == 1 {
        return Err(bad_xml_err());
    }
    if b + ne < n && v[b + ne] == '>' {
        assert(s[ne as int] == '>');
        proof {
            assert(s.subrange(1, ne as int) =~= v@.subrange(b + 1, (b + ne) as int));
        }
        return Ok(
            OpenTag {
                name_lo: b + 1,
                name_hi: b + ne,
                attr_name_lo: 0,
                attr_name_hi: 0,
                attr_value: None,
                next: b + ne + 1,
            },
        );
    }
    if b + ne < n && v[b + ne] == ' ' {
        assert(s[ne as int] == ' ');
        let ae = scan_name_x(v, b, ne + 1);
        if ae == ne + 1 {
            return Err(bad_xml_err());
        }
        if n - b - ae >= 2 && v[b + ae] == '=' && v[b + ae + 1] == '"' {
            assert(s[ae as int] == '=');
            assert(s[ae + 1 as int] == '"');
            let qe = scan_quote_x(v, b, ae + 2);
            if b + qe == n {
                return Err(bad_xml_err());
            }
            proof {
                assert(s.subrange(ae + 2 as int, qe as int) =~= v@.subrange(
                    (b + ae + 2) as int,
                    (b + qe) as int,
                ));
                assert(s.subrange(ne + 1 as int, ae as int) =~= v@.subrange(
                    (b + ne + 1) as int,
                    (b + ae) as int,
                ));
            }
            match unescape_range(v, b + ae + 2, b + qe) {
                None => {
                    return Err(
                        CamtError::MalformedValue {
                            element: string_of_range(v, b + ne + 1, b + ae),
                            text: string_of_range(v, b + ae + 2, b + qe),
                        },
                    );
                },
                Some(av) => {
                    if b + qe + 1 < n && v[b + qe + 1] == '>' {
                        assert(s[qe + 1 as int] == '>');
                        proof {
                            assert(s.subrange(1, ne as int) =~= v@.subrange(
                                b + 1,
                                (b + ne) as int,
                            ));
                        }
                        return Ok(
                            OpenTag {
                                name_lo: b + 1,
                                name_hi: b + ne,
                                attr_name_lo: b + ne + 1,
                                attr_name_hi: b + ae,
                                attr_value: Some(av),
                                next: b + qe + 2,
                            },
                        );
                    } else {
                        return Err(bad_xml_err());
                    }
                },
            }
        } else {
            return Err(bad_xml_err());
        }
    }
    Err(bad_xml_err())
}

fn read_close_x(v: &Vec<char>, b: usize) -> (r: Result<(usize, usize, usize), CamtError>)
    requires
        b <= v@.len(),
    ensures
        ({
            let sr = read_close(v@.skip(b as int));
            match r {
                Ok((lo, hi, next)) => sr is Ok && ({
                    let (name, n) = sr->Ok_0;
                    &&& name == v@.subrange(lo as int, hi as int)
                    &&& b <= lo <= hi <= v@.len()
                    &&& n == next - b
                    &&& b < next <= v@.len()
                }),
                Err(e) => sr is Err && e@ == sr->Err_0,
            }
        }),
{
    let ghost s = v@.skip(b as int);
    let n = v.len();
    if n - b < 2 || v[b] != '<' || v[b + 1] != '/' {
        return Err(bad_xml_err());
    }
    assert(s[0] == '<');
    assert(s[1] == '/');
    let ne = scan_name_x(v, b, 2);
    if ne == 2 {
        return Err(bad_xml_err());
    }
    if b + ne < n && v[b + ne] == '>' {
        assert(s[ne as int] == '>');
        proof {
            assert(s.subrange(2, ne as int) =~= v@.subrange(b + 2, (b + ne) as int));
        }
        return Ok((b + 2, b + ne, b + ne + 1));
    }
    Err(bad_xml_err())
}

fn tag_end_x(v: &Vec<char>, b: usize, i: usize, in_quote: bool) -> (r: Option<usize>)
    requires
        b <= v@.len(),
        i <= v@.len() - b,
    ensures
        ({
            let te = tag_end(v@.skip(b as int), i as int, in_quote);
            match r {
                Some(j) => te == j as int && i < j <= v@.len() - b,
                None => te == v@.len() - b + 1,
            }
        }),
{
    let ghost s = v@.skip(b as int);
    let n = v.len();
    let mut cur = i;
    let mut inq = in_quote;
    loop
        invariant
            b <= n == v@.len(),
            s == v@.skip(b as int),
            i <= cur,
            b + cur <= n,
            tag_end(s, cur as int, inq) == tag_end(s, i as int, in_quote),
        decreases n - b - cur,
    {
        if b + cur == n {
            assert(tag_end(s, cur as int, inq) == s.len() + 1);
            return None;
        }
        let c = v[b + cur];
        assert(s[cur as int] == v@[b + cur]);
        if inq {
            if c == '"' {
                assert(tag_end(s, cur as int, true) == tag_end(s, cur + 1 as int, false));
                inq = false;
            } else {
                assert(tag_end(s, cur as int, true) == tag_end(s, cur + 1 as int, true));
            }
            cur = cur + 1;
        } else {
            if c == '>' {
                assert(tag_end(s, cur as int, false) == cur + 1);
                return Some(cur + 1);
            } else if c == '"' {
                assert(tag_end(s, cur as int, false) == tag_end(s, cur + 1 as int, true));
                inq = true;
                cur = cur + 1;
            } else {
                assert(tag_end(s, cur as int, false) == tag_end(s, cur + 1 as int, false));
                cur = cur + 1;
            }
        }
    }
}

fn skip_tree_x(v: &Vec<char>, b: usize, i: usize, depth: usize) -> (r: Result<usize, CamtError>)
    requires
        b <= v@.len(),
        i <= v@.len() - b,
    ensures
        ({
            let sr = skip_tree(v@.skip(b as int), i as int, depth as nat);
            match r {
                Ok(j) => sr == Ok::<int, CamtErrorView>(j as int) && i <= j <= v@.len() - b,
                Err(e) => sr is Err && e@ == sr->Err_0,
            }
        }),
    decreases v@.len() - b - i,
{
    let ghost s = v@.skip(b as int);
    let n = v.len();
    if depth == 0 {
        return Ok(i);
    }
    if b + i == n || depth >= n - b - i {
        return Err(bad_xml_err());
    }
    let c = v[b + i];
    assert(s[i as int] == v@[b + i]);
    if c == '<' {
        let closing = b + i + 1 < n && v[b + i + 1] == '/';
        assert(closing == is_close_at(s, i as int));
        if closing {
            let je = tag_end_x(v, b, i + 2, false);
            let j: usize = match je {
                Some(j0) => if j0 < 1 {
                    1
                } else {
                    j0
                },
                None => n - b,
            };
            assert(j as int == bump(tag_end(s, i + 2, false), s.len() as int));
            if j <= i {
                return Err(bad_xml_err());
            }
            skip_tree_x(v, b, j, depth - 1)
        } else {
            let je = tag_end_x(v, b, i + 1, false);
            match je {
                None => {
                    assert(tag_end(s, i + 1 as int, false) > s.len());
                    Err(bad_xml_err())
                },
                Some(j0) => {
                    assert(tag_end(s, i + 1 as int, false) == j0 as int);
                    assert(j0 as int <= s.len());
                    let j2: usize = if j0 < 1 {
                        1
                    } else {
                        j0
                    };
                    assert(j2 as int == bump(j0 as int, s.len() as int));
                    if j2 <= i {
                        return Err(bad_xml_err());
                    }
                    skip_tree_x(v, b, j2, depth + 1)
                },
            }
        }
    } else {
        let t = scan_text_x(v, b, i);
        let j: usize = if t < 1 {
            1
        } else {
            t
        };
        assert(j as int == bump(text_end(s, i as int), s.len() as int));
        if j <= i {
            return Err(bad_xml_err());
        }
        skip_tree_x(v, b, j, depth)
    }
}

fn skip_element_x(v: &Vec<char>, b: usize) -> (r: Result<usize, CamtError>)
    requires
        b <= v@.len(),
    ensures
        ({
            let sr = skip_element(v@.skip(b as int));
            match r {
                Ok(j) => sr == Ok::<int, CamtErrorView>(j as int) && j <= v@.len() - b,
                Err(e) => sr is Err && e@ == sr->Err_0,
            }
        }),
{
    let ghost s = v@.skip(b as int);
    let n = v.len();
    let opening = n - b >= 2 && v[b] == '<' && v[b + 1] != '/';
    assert(opening == is_open_at(s, 0));
    if !opening {
        return Err(bad_xml_err());
    }
    match tag_end_x(v, b, 1, false) {
        None => {
            assert(tag_end(s, 1, false) > s.len());
            Err(bad_xml_err())
        },
        Some(j0) => {
            assert(tag_end(s, 1, false) == j0 as int);
            let j2: usize = if j0 < 1 {
                1
            } else {
                j0
            };
            assert(j2 as int == bump(j0 as int, s.len() as int));
            skip_tree_x(v, b, j2, 1)
        },
    }
}

/// Tests whether the spec-level tag set `stops` holds the name at the given
/// buffer range.
fn name_in_stops(v: &Vec<char>, lo: usize, hi: usize, stops: &Vec<String>) -> (r: bool)
    requires
        lo <= hi <= v@.len(),
    ensures
        r == string_views(stops@).contains(v@.subrange(lo as int, hi as int)),
{
    let ghost name = v@.subrange(lo as int, hi as int);
    let ghost sv = string_views(stops@);
    let m = stops.len();
    let mut si: usize = 0;
    while si < m
        invariant
            lo <= hi <= v@.len(),
            m == stops@.len(),
            si <= m,
            name == v@.subrange(lo as int, hi as int),
            sv == string_views(stops@),
            forall|j: int| 0 <= j < si ==> sv[j] != name,
        decreases m - si,
    {
        if range_eq_str(v, lo, hi, stops[si].as_str()) {
            assert(sv[si as int] == name);
            return true;
        }
        si = si + 1;
    }
    false
}

fn seek_x(v: &Vec<char>, b: usize, want: &str, stops: &Vec<String>) -> (r: Result<
    (bool, usize),
    CamtError,
>)
    requires
        b <= v@.len(),
    ensures
        ({
            let sr = seek(v@.skip(b as int), want@, string_views(stops@));
            match r {
                Ok((f, j)) => sr == Ok::<(bool, int), CamtErrorView>((f, j as int)) && j <= v@.len()
                    - b,
                Err(e) => sr is Err && e@ == sr->Err_0,
            }
        }),
    decreases v@.len() - b,
{
    let ghost s = v@.skip(b as int);
    let vlen = v.len();
    assert(vlen == v@.len());
    let ghost sv = string_views(stops@);
    let n = v.len();
    let t = scan_text_x(v, b, 0);
    if b + t == n {
        return Err(bad_xml_err());
    }
    let closing = b + t + 1 < n && v[b + t] == '<' && v[b + t + 1] == '/';
    assert(closing == is_close_at(s, t as int));
    if closing {
        return Ok((false, t));
    }
    proof {
        assert(s.skip(t as int) =~= v@.skip((b + t) as int));
    }
    match read_open_x(v, b + t) {
        Err(e) => Err(e),
        Ok(o) => {
            if range_eq_str(v, o.name_lo, o.name_hi, want) {
                return Ok((true, t));
            }
            if name_in_stops(v, o.name_lo, o.name_hi, stops) {
                return Ok((false, t));
            }
            match skip_element_x(v, b + t) {
                Err(e) => Err(e),
                Ok(n2) => {
                    let tn = t + n2;
                    let j: usize = if tn < 1 {
                        1
                    } else if tn > n - b {
                        n - b
                    } else {
                        tn
                    };
                    assert(j as int == bump(t + n2, s.len() as int));
                    proof {
                        assert(s.skip(j as int) =~= v@.skip((b + j) as int));
                    }
                    match seek_x(v, b + j, want, stops) {
                        Err(e) => Err(e),
                        Ok((f, k)) => Ok((f, j + k)),
                    }
                },
            }
        },
    }
}

fn seek_close_x(v: &Vec<char>, b: usize) -> (r: Result<usize, CamtError>)
    requires
        b <= v@.len(),
    ensures
        ({
            let sr = seek_close(v@.skip(b as int));
            match r {
                Ok(j) => sr == Ok::<int, CamtErrorView>(j as int) && j <= v@.len() - b,
                Err(e) => sr is Err && e@ == sr->Err_0,
            }
        }),
    decreases v@.len() - b,
{
    let ghost s = v@.skip(b as int);
    let n = v.len();
    let t = scan_text_x(v, b, 0);
    if b + t == n {
        return Err(bad_xml_err());
    }
    let closing = b + t + 1 < n && v[b + t] == '<' && v[b + t + 1] == '/';
    assert(closing == is_close_at(s, t as int));
    if closing {
        return Ok(t);
    }
    proof {
        assert(s.skip(t as int) =~= v@.skip((b + t) as int));
    }
    match skip_element_x(v, b + t) {
        Err(e) => Err(e),
        Ok(n2) => {
            let tn = t + n2;
            let j: usize = if tn < 1 {
                1
            } else if tn > n - b {
                n - b
            } else {
                tn
            };
            assert(j as int == bump(t + n2, s.len() as int));
            proof {
                assert(s.skip(j as int) =~= v@.skip((b + j) as int));
            }
            match seek_close_x(v, b + j) {
                Err(e) => Err(e),
                Ok(k) => Ok(j + k),
            }
        },
    }
}

fn finish_elem_x(v: &Vec<char>, b: usize, tag: &str) -> (r: Result<usize, CamtError>)
    requires
        b <= v@.len(),
    ensures
        ({
            let sr = finish_elem(v@.skip(b as int), tag@);
            match r {
                Ok(j) => sr == Ok::<int, CamtErrorView>(j as int) && j <= v@.len() - b,
                Err(e) => sr is Err && e@ == sr->Err_0,
            }
        }),
{
    let ghost s = v@.skip(b as int);
    let n = v.len();
    match seek_close_x(v, b) {
        Err(e) => Err(e),
        Ok(j) => {
            assert(b + j <= n);
            proof {
                assert(s.skip(j as int) =~= v@.skip((b + j) as int));
            }
            match read_close_x(v, b + j) {
                Err(e) => Err(e),
                Ok((lo, hi, next)) => {
                    if range_eq_str(v, lo, hi, tag) {
                        Ok(j + (next - (b + j)))
                    } else {
                        Err(bad_xml_err())
                    }
                },
            }
        },
    }
}

fn parse_text_elem_x(v: &Vec<char>, b: usize, tag: &str, path: &str) -> (r: Result<
    (String, usize),
    CamtError,
>)
    requires
        b <= v@.len(),
    ensures
        ({
            let sr = parse_text_elem(v@.skip(b as int), tag@, path@);
            match r {
                Ok((val, n)) => sr == Ok::<(Seq<char>, int), CamtErrorView>((val@, n as int)) && n
                    <= v@.len() - b,
                Err(e) => sr is Err && e@ == sr->Err_0,
            }
        }),
{
    proof {
        reveal(parse_text_elem);
    }
    let ghost s = v@.skip(b as int);
    let vlen = v.len();
    assert(vlen == v@.len());
    match read_open_x(v, b) {
        Err(e) => Err(e),
        Ok(o) => {
            if !range_eq_str(v, o.name_lo, o.name_hi, tag) {
                return Err(bad_xml_err());
            }
            let nv = v.len();
            let n0 = o.next - b;
            let t = scan_text_x(v, b, n0);
            assert(b + t <= nv);
            proof {
                assert(s.subrange(n0 as int, t as int) =~= v@.subrange(
                    o.next as int,
                    (b + t) as int,
                ));
            }
            match unescape_range(v, o.next, b + t) {
                None => Err(
                    CamtError::MalformedValue {
                        element: String::from_str(path),
                        text: string_of_range(v, o.next, b + t),
                    },
                ),
                Some(val) => {
                    proof {
                        assert(s.skip(t as int) =~= v@.skip((b + t) as int));
                    }
                    match read_close_x(v, b + t) {
                        Err(e) => Err(e),
                        Ok((lo, hi, next)) => {
                            if range_eq_str(v, lo, hi, tag) {
                                Ok((val, t + (next - (b + t))))
                            } else {
                                Err(bad_xml_err())
                            }
                        },
                    }
                },
            }
        },
    }
}

fn parse_num_elem_x(v: &Vec<char>, b: usize, tag: &str, path: &str) -> (r: Result<
    (u32, usize),
    CamtError,
>)
    requires
        b <= v@.len(),
    ensures
        ({
            let sr = parse_num_elem(v@.skip(b as int), tag@, path@);
            match r {
                Ok((val, n)) => sr == Ok::<(u32, int), CamtErrorView>((val, n as int)) && n
                    <= v@.len() - b,
                Err(e) => sr is Err && e@ == sr->Err_0,
            }
        }),
{
    proof {
        reveal(parse_num_elem);
    }
    let ghost s = v@.skip(b as int);
    let vlen = v.len();
    assert(vlen == v@.len());
    match read_open_x(v, b) {
        Err(e) => Err(e),
        Ok(o) => {
            if !range_eq_str(v, o.name_lo, o.name_hi, tag) {
                return Err(bad_xml_err());
            }
            let nv = v.len();
            let n0 = o.next - b;
            let d = scan_digits_x(v, b, n0);
            let t = scan_text_x(v, b, n0);
            assert(b + t <= nv);
            proof {
                crate::chars::lemma_scan_while(s, n0 as int, |c: char| is_digit(c));
            }
            let mut val: u32 = 0;
            let mut over = false;
            let mut k = n0;
            while k < d
                invariant
                    nv == v@.len(),
                    b <= v@.len(),
                    s == v@.skip(b as int),
                    n0 <= k <= d <= v@.len() - b,
                    d == digits_end(s, n0 as int),
                    forall|j: int| n0 <= j < d ==> is_digit(s[j]),
                    over ==> val_of(s.subrange(n0 as int, k as int)) > u32::MAX,
                    !over ==> val as nat == val_of(s.subrange(n0 as int, k as int)),
                decreases d - k,
            {
                let c = v[b + k];
                assert(s[k as int] == v@[b + k]);
                assert(is_digit(s[k as int]));
                let dg = (c as u32) - 48;
                let ghost pre = s.subrange(n0 as int, k as int);
                let ghost post = s.subrange(n0 as int, k + 1 as int);
                proof {
                    assert(post.drop_last() =~= pre);
                    assert(post.last() == s[k as int]);
                    assert('0' as u32 == 48);
                    assert(dg as nat == crate::chars::digit_val(s[k as int]));
                    assert(val_of(post) == val_of(post.drop_last()) * 10 + crate::chars::digit_val(
                        post.last(),
                    ));
                    assert(val_of(post) == val_of(pre) * 10 + (dg as nat));
                }
                if over || val > (u32::MAX - dg) / 10 {
                    proof {
                        if !over {
                            assert(val as nat * 10 + dg as nat > u32::MAX) by (nonlinear_arith)
                                requires
                                    val > (u32::MAX - dg) / 10,
                                    dg <= 9,
                            ;
                        }
                        assert(val_of(post) > u32::MAX) by (nonlinear_arith)
                            requires
                                val_of(post) == val_of(pre) * 10 + (dg as nat),
                                val_of(pre) > u32::MAX || val_of(pre) * 10 + (dg as nat)
                                    > u32::MAX,
                        ;
                    }
                    over = true;
                } else {
                    proof {
                        assert(val as nat * 10 + dg as nat <= u32::MAX) by (nonlinear_arith)
                            requires
                                val <= (u32::MAX - dg) / 10,
                                dg <= 9,
                        ;
                    }
                    val = val * 10 + dg;
                }
                k = k + 1;
            }
            let bad = d == n0 || d != t || over;
            proof {
                assert(s.subrange(n0 as int, t as int) =~= v@.subrange(
                    o.next as int,
                    (b + t) as int,
                ));
            }
            if bad {
                return Err(
                    CamtError::MalformedValue {
                        element: String::from_str(path),
                        text: string_of_range(v, o.next, b + t),
                    },
                );
            }
            assert(val as nat == val_of(s.subrange(n0 as int, d as int)));
            proof {
                assert(s.skip(t as int) =~= v@.skip((b + t) as int));
            }
            match read_close_x(v, b + t) {
                Err(e) => Err(e),
                Ok((lo, hi, next)) => {
                    if range_eq_str(v, lo, hi, tag) {
                        Ok((val, t + (next - (b + t))))
                    } else {
                        Err(bad_xml_err())
                    }
                },
            }
        },
    }
}

fn parse_amount_elem_x(v: &Vec<char>, b: usize, tag: &str, path: &str) -> (r: Result<
    (Amount, usize),
    CamtError,
>)
    requires
        b <= v@.len(),
    ensures
        ({
            let sr = parse_amount_elem(v@.skip(b as int), tag@, path@);
            match r {
                Ok((val, n)) => sr == Ok::<(AmountView, int), CamtErrorView>((val@, n as int)) && n
                    <= v@.len() - b,
                Err(e) => sr is Err && e@ == sr->Err_0,
            }
        }),
{
    proof {
        reveal(parse_amount_elem);
    }
    let ghost s = v@.skip(b as int);
    let vlen = v.len();
    assert(vlen == v@.len());
    match read_open_x(v, b) {
        Err(e) => Err(e),
        Ok(o) => {
            if !range_eq_str(v, o.name_lo, o.name_hi, tag) {
                return Err(bad_xml_err());
            }
            let has_ccy = match &o.attr_value {
                Some(_) => range_eq_str(v, o.attr_name_lo, o.attr_name_hi, "Ccy"),
                None => false,
            };
            match o.attr_value {
                None => Err(missing_err(path)),
                Some(av) => {
                    if !has_ccy {
                        return Err(missing_err(path));
                    }
                    let nv = v.len();
                    let n0 = o.next - b;
                    let t = scan_text_x(v, b, n0);
                    assert(b + t <= nv);
                    proof {
                        assert(s.subrange(n0 as int, t as int) =~= v@.subrange(
                            o.next as int,
                            (b + t) as int,
                        ));
                    }
                    match unescape_range(v, o.next, b + t) {
                        None => Err(
                            CamtError::MalformedValue {
                                element: String::from_str(path),
                                text: string_of_range(v, o.next, b + t),
                            },
                        ),
                        Some(val) => {
                            proof {
                                assert(s.skip(t as int) =~= v@.skip((b + t) as int));
                            }
                            match read_close_x(v, b + t) {
                                Err(e) => Err(e),
                                Ok((lo, hi, next)) => {
                                    if range_eq_str(v, lo, hi, tag) {
                                        Ok(
                                            (
                                                Amount { currency: av, value: val },
                                                t + (next - (b + t)),
                                            ),
                                        )
                                    } else {
                                        Err(bad_xml_err())
                                    }
                                },
                            }
                        },
                    }
                },
            }
        },
    }
}

fn stops0() -> (r: Vec<String>)
    ensures
        string_views(r@) == Seq::<Seq<char>>::empty(),
{
    let r: Vec<String> = Vec::new();
    assert(string_views(r@) =~= Seq::<Seq<char>>::empty());
    r
}

fn stops1(a: &str) -> (r: Vec<String>)
    ensures
        string_views(r@) == seq![a@],
{
    let mut r: Vec<String> = Vec::new();
    r.push(String::from_str(a));
    assert(string_views(r@) =~= seq![a@]);
    r
}

fn stops2(a: &str, b2: &str) -> (r: Vec<String>)
    ensures
        string_views(r@) == seq![a@, b2@],
{
    let mut r: Vec<String> = Vec::new();
    r.push(String::from_str(a));
    r.push(String::from_str(b2));
    assert(string_views(r@) =~= seq![a@, b2@]);
    r
}

fn stops3(a: &str, b2: &str, c: &str) -> (r: Vec<String>)
    ensures
        string_views(r@) == seq![a@, b2@, c@],
{
    let mut r: Vec<String> = Vec::new();
    r.push(String::from_str(a));
    r.push(String::from_str(b2));
    r.push(String::from_str(c));
    assert(string_views(r@) =~= seq![a@, b2@, c@]);
    r
}

/// Seeks and reads a required text child.
fn req_text_x(v: &Vec<char>, b: usize, tag: &str, path: &str, stops: &Vec<String>) -> (r: Result<
    (String, usize),
    CamtError,
>)
    requires
        b <= v@.len(),
    ensures
        ({
            let sr = req_child(
                v@.skip(b as int),
                tag@,
                string_views(stops@),
                path@,
                text_reader(tag@, path@),
            );
            match r {
                Ok((val, n)) => sr == Ok::<(Seq<char>, int), CamtErrorView>((val@, n as int)) && n
                    <= v@.len() - b,
                Err(e) => sr is Err && e@ == sr->Err_0,
            }
        }),
{
    let ghost s = v@.skip(b as int);
    let vlen = v.len();
    assert(vlen == v@.len());
    match seek_x(v, b, tag, stops) {
        Err(e) => Err(e),
        Ok((found, j)) => {
            if !found {
                return Err(missing_err(path));
            }
            proof {
                assert(s.skip(j as int) =~= v@.skip((b + j) as int));
            }
            match parse_text_elem_x(v, b + j, tag, path) {
                Err(e) => Err(e),
                Ok((val, n1)) => Ok((val, j + n1)),
            }
        },
    }
}

/// Seeks and reads an optional numeric child; absent is `None`.
fn opt_num_x(v: &Vec<char>, b: usize, tag: &str, path: &str, stops: &Vec<String>) -> (r: Result<
    (Option<u32>, usize),
    CamtError,
>)
    requires
        b <= v@.len(),
    ensures
        ({
            let sr = opt_child(
                v@.skip(b as int),
                tag@,
                string_views(stops@),
                num_reader(tag@, path@),
            );
            match r {
                Ok((val, n)) => sr == Ok::<(Option<u32>, int), CamtErrorView>((val, n as int)) && n
                    <= v@.len() - b,
                Err(e) => sr is Err && e@ == sr->Err_0,
            }
        }),
{
    let ghost s = v@.skip(b as int);
    let vlen = v.len();
    assert(vlen == v@.len());
    match seek_x(v, b, tag, stops) {
        Err(e) => Err(e),
        Ok((found, j)) => {
            if !found {
                return Ok((None, j));
            }
            proof {
                assert(s.skip(j as int) =~= v@.skip((b + j) as int));
            }
            match parse_num_elem_x(v, b + j, tag, path) {
                Err(e) => Err(e),
                Ok((val, n1)) => Ok((Some(val), j + n1)),
            }
        },
    }
}

/// Reads a run of text children named `tag` (the address lines).
#[verifier::rlimit(40)]
fn text_list_x(v: &Vec<char>, b: usize, tag: &str, path: &str) -> (r: Result<
    (Vec<String>, usize),
    CamtError,
>)
    requires
        b <= v@.len(),
    ensures
        ({
            let sr = parse_list(v@.skip(b as int), tag@, text_reader(tag@, path@));
            match r {
                Ok((vals, n)) => sr == Ok::<(Seq<Seq<char>>, int), CamtErrorView>(
                    (string_views(vals@), n as int),
                ) && n <= v@.len() - b,
                Err(e) => sr is Err && e@ == sr->Err_0,
            }
        }),
    decreases v@.len() - b,
{
    let ghost s = v@.skip(b as int);
    let n = v.len();
    let st0 = stops0();
    match seek_x(v, b, tag, &st0) {
        Err(e) => Err(e),
        Ok((found, j)) => {
            if !found {
                let out: Vec<String> = Vec::new();
                proof {
                    assert(string_views(out@) =~= Seq::<Seq<char>>::empty());
                }
                return Ok((out, j));
            }
            proof {
                assert(s.skip(j as int) =~= v@.skip((b + j) as int));
            }
            match parse_text_elem_x(v, b + j, tag, path) {
                Err(e) => Err(e),
                Ok((val, n1)) => {
                    let jn = j + n1;
                    let j2: usize = if jn < 1 {
                        1
                    } else if jn > n - b {
                        n - b
                    } else {
                        jn
                    };
                    assert(j2 as int == bump(jn as int, s.len() as int));
                    proof {
                        assert(s.skip(j2 as int) =~= v@.skip((b + j2) as int));
                    }
                    match text_list_x(v, b + j2, tag, path) {
                        Err(e) => Err(e),
                        Ok((mut rest, k)) => {
                            let ghost rest0 = rest@;
                            rest.insert(0, val);
                            proof {
                                assert(string_views(rest@) =~= seq![val@] + string_views(rest0));
                            }
                            Ok((rest, j2 + k))
                        },
                    }
                },
            }
        },
    }
}

fn parse_group_header_x(v: &Vec<char>, b: usize) -> (r: Result<(GroupHeader, usize), CamtError>)
    requires
        b <= v@.len(),
    ensures
        ({
            let sr = parse_group_header(v@.skip(b as int));
            match r {
                Ok((gh, n)) => sr == Ok::<(GroupHeaderView, int), CamtErrorView>((gh@, n as int))
                    && n <= v@.len() - b,
                Err(e) => sr is Err && e@ == sr->Err_0,
            }
        }),
{
    proof {
        reveal(parse_group_header);
    }
    let ghost s = v@.skip(b as int);
    let vlen = v.len();
    assert(vlen == v@.len());
    let o = match read_open_x(v, b) {
        Ok(o) => o,
        Err(e) => {
            return Err(e);
        },
    };
    let n0 = o.next - b;
    let st0 = stops0();
    proof {
        assert(s.skip(n0 as int) =~= v@.skip(o.next as int));
    }
    let (msg, m1) = match req_text_x(v, o.next, "MsgId", "GrpHdr/MsgId", &st0) {
        Ok(p) => p,
        Err(e) => {
            return Err(e);
        },
    };
    proof {
        assert(s.skip((n0 + m1) as int) =~= v@.skip((o.next + m1) as int));
    }
    let (cre, m2) = match req_text_x(v, o.next + m1, "CreDtTm", "GrpHdr/CreDtTm", &st0) {
        Ok(p) => p,
        Err(e) => {
            return Err(e);
        },
    };
    proof {
        assert(s.skip((n0 + m1 + m2) as int) =~= v@.skip((o.next + m1 + m2) as int));
    }
    let m3 = match finish_elem_x(v, o.next + m1 + m2, "GrpHdr") {
        Ok(p) => p,
        Err(e) => {
            return Err(e);
        },
    };
    Ok((GroupHeader { message_id: msg, creation_date_time: cre }, n0 + m1 + m2 + m3))
}

fn parse_account_id_x(v: &Vec<char>, b: usize) -> (r: Result<(AccountId, usize), CamtError>)
    requires
        b <= v@.len(),
    ensures
        ({
            let sr = parse_account_id(v@.skip(b as int));
            match r {
                Ok((a, n)) => sr == Ok::<(AccountIdView, int), CamtErrorView>((a@, n as int)) && n
                    <= v@.len() - b,
                Err(e) => sr is Err && e@ == sr->Err_0,
            }
        }),
{
    proof {
        reveal(parse_account_id);
    }
    let ghost s = v@.skip(b as int);
    let vlen = v.len();
    assert(vlen == v@.len());
    let o = match read_open_x(v, b) {
        Ok(o) => o,
        Err(e) => {
            return Err(e);
        },
    };
    let n0 = o.next - b;
    proof {
        assert(s.skip(n0 as int) =~= v@.skip(o.next as int));
    }
    let sto = stops1("Othr");
    let (found, j) = match seek_x(v, o.next, "IBAN", &sto) {
        Ok(p) => p,
        Err(e) => {
            return Err(e);
        },
    };
    if found {
        proof {
            assert(s.skip(n0 as int).skip(j as int) =~= v@.skip((o.next + j) as int));
        }
        let (val, n1) = match parse_text_elem_x(v, o.next + j, "IBAN", "Acct/Id/IBAN") {
            Ok(p) => p,
            Err(e) => {
                return Err(e);
            },
        };
        let m1 = j + n1;
        proof {
            assert(s.skip((n0 + m1) as int) =~= v@.skip((o.next + m1) as int));
        }
        let m2 = match finish_elem_x(v, o.next + m1, "Id") {
            Ok(p) => p,
            Err(e) => {
                return Err(e);
            },
        };
        Ok((AccountId { id: AccountIdKind::Iban(val) }, n0 + m1 + m2))
    } else {
        let m1 = j;
        proof {
            assert(s.skip((n0 + m1) as int) =~= v@.skip((o.next + m1) as int));
        }
        let st0 = stops0();
        let (val, m2) = match req_text_x(v, o.next + m1, "Othr", "Acct/Id", &st0) {
            Ok(p) => p,
            Err(e) => {
                return Err(e);
            },
        };
        proof {
            assert(s.skip((n0 + m1 + m2) as int) =~= v@.skip((o.next + m1 + m2) as int));
        }
        let m3 = match finish_elem_x(v, o.next + m1 + m2, "Id") {
            Ok(p) => p,
            Err(e) => {
                return Err(e);
            },
        };
        Ok((AccountId { id: AccountIdKind::Other(val) }, n0 + m1 + m2 + m3))
    }
}

fn parse_account_x(v: &Vec<char>, b: usize) -> (r: Result<(Account, usize), CamtError>)
    requires
        b <= v@.len(),
    ensures
        ({
            let sr = parse_account(v@.skip(b as int));
            match r {
                Ok((a, n)) => sr == Ok::<(AccountView, int), CamtErrorView>((a@, n as int)) && n
                    <= v@.len() - b,
                Err(e) => sr is Err && e@ == sr->Err_0,
            }
        }),
{
    proof {
        reveal(parse_account);
    }
    let ghost s = v@.skip(b as int);
    let vlen = v.len();
    assert(vlen == v@.len());
    let o = match read_open_x(v, b) {
        Ok(o) => o,
        Err(e) => {
            return Err(e);
        },
    };
    let n0 = o.next - b;
    proof {
        assert(s.skip(n0 as int) =~= v@.skip(o.next as int));
    }
    let st0 = stops0();
    let (found, j) = match seek_x(v, o.next, "Id", &st0) {
        Ok(p) => p,
        Err(e) => {
            return Err(e);
        },
    };
    if !found {
        return Err(missing_err("Acct/Id"));
    }
    proof {
        assert(s.skip(n0 as int).skip(j as int) =~= v@.skip((o.next + j) as int));
    }
    let (idv, n1) = match parse_account_id_x(v, o.next + j) {
        Ok(p) => p,
        Err(e) => {
            return Err(e);
        },
    };
    let m1 = j + n1;
    proof {
        assert(s.skip((n0 + m1) as int) =~= v@.skip((o.next + m1) as int));
    }
    let m2 = match finish_elem_x(v, o.next + m1, "Acct") {
        Ok(p) => p,
        Err(e) => {
            return Err(e);
        },
    };
    Ok((Account { id: idv }, n0 + m1 + m2))
}

fn parse_wrapped_date_x(v: &Vec<char>, b: usize, tag: &str, path: &str) -> (r: Result<
    (String, usize),
    CamtError,
>)
    requires
        b <= v@.len(),
    ensures
        ({
            let sr = parse_wrapped_date(v@.skip(b as int), tag@, path@);
            match r {
                Ok((val, n)) => sr == Ok::<(Seq<char>, int), CamtErrorView>((val@, n as int)) && n
                    <= v@.len() - b,
                Err(e) => sr is Err && e@ == sr->Err_0,
            }
        }),
{
    proof {
        reveal(parse_wrapped_date);
    }
    let ghost s = v@.skip(b as int);
    let vlen = v.len();
    assert(vlen == v@.len());
    let o = match read_open_x(v, b) {
        Ok(o) => o,
        Err(e) => {
            return Err(e);
        },
    };
    let n0 = o.next - b;
    proof {
        assert(s.skip(n0 as int) =~= v@.skip(o.next as int));
    }
    let st0 = stops0();
    let (val, m1) = match req_text_x(v, o.next, "Dt", path, &st0) {
        Ok(p) => p,
        Err(e) => {
            return Err(e);
        },
    };
    proof {
        assert(s.skip((n0 + m1) as int) =~= v@.skip((o.next + m1) as int));
    }
    let m2 = match finish_elem_x(v, o.next + m1, tag) {
        Ok(p) => p,
        Err(e) => {
            return Err(e);
        },
    };
    Ok((val, n0 + m1 + m2))
}

fn parse_code_or_proprietary_x(v: &Vec<char>, b: usize) -> (r: Result<(String, usize), CamtError>)
    requires
        b <= v@.len(),
    ensures
        ({
            let sr = parse_code_or_proprietary(v@.skip(b as int));
            match r {
                Ok((val, n)) => sr == Ok::<(Seq<char>, int), CamtErrorView>((val@, n as int)) && n
                    <= v@.len() - b,
                Err(e) => sr is Err && e@ == sr->Err_0,
            }
        }),
{
    proof {
        reveal(parse_code_or_proprietary);
    }
    let ghost s = v@.skip(b as int);
    let vlen = v.len();
    assert(vlen == v@.len());
    let o = match read_open_x(v, b) {
        Ok(o) => o,
        Err(e) => {
            return Err(e);
        },
    };
    let n0 = o.next - b;
    proof {
        assert(s.skip(n0 as int) =~= v@.skip(o.next as int));
    }
    let st0 = stops0();
    let (val, m1) = match req_text_x(v, o.next, "Cd", "Bal/Tp/CdOrPrtry/Cd", &st0) {
        Ok(p) => p,
        Err(e) => {
            return Err(e);
        },
    };
    proof {
        assert(s.skip((n0 + m1) as int) =~= v@.skip((o.next + m1) as int));
    }
    let m2 = match finish_elem_x(v, o.next + m1, "CdOrPrtry") {
        Ok(p) => p,
        Err(e) => {
            return Err(e);
        },
    };
    Ok((val, n0 + m1 + m2))
}

fn parse_balance_type_x(v: &Vec<char>, b: usize) -> (r: Result<(String, usize), CamtError>)
    requires
        b <= v@.len(),
    ensures
        ({
            let sr = parse_balance_type(v@.skip(b as int));
            match r {
                Ok((val, n)) => sr == Ok::<(Seq<char>, int), CamtErrorView>((val@, n as int)) && n
                    <= v@.len() - b,
                Err(e) => sr is Err && e@ == sr->Err_0,
            }
        }),
{
    proof {
        reveal(parse_balance_type);
    }
    let ghost s = v@.skip(b as int);
    let vlen = v.len();
    assert(vlen == v@.len());
    let o = match read_open_x(v, b) {
        Ok(o) => o,
        Err(e) => {
            return Err(e);
        },
    };
    let n0 = o.next - b;
    proof {
        assert(s.skip(n0 as int) =~= v@.skip(o.next as int));
    }
    let st0 = stops0();
    let (found, j) = match seek_x(v, o.next, "CdOrPrtry", &st0) {
        Ok(p) => p,
        Err(e) => {
            return Err(e);
        },
    };
    if !found {
        return Err(missing_err("Bal/Tp/CdOrPrtry"));
    }
    proof {
        assert(s.skip(n0 as int).skip(j as int) =~= v@.skip((o.next + j) as int));
    }
    let (val, n1) = match parse_code_or_proprietary_x(v, o.next + j) {
        Ok(p) => p,
        Err(e) => {
            return Err(e);
        },
    };
    let m1 = j + n1;
    proof {
        assert(s.skip((n0 + m1) as int) =~= v@.skip((o.next + m1) as int));
    }
    let m2 = match finish_elem_x(v, o.next + m1, "Tp") {
        Ok(p) => p,
        Err(e) => {
            return Err(e);
        },
    };
    Ok((val, n0 + m1 + m2))
}

#[verifier::rlimit(60)]
fn parse_balance_x(v: &Vec<char>, b: usize) -> (r: Result<(Balance, usize), CamtError>)
    requires
        b <= v@.len(),
    ensures
        ({
            let sr = parse_balance(v@.skip(b as int));
            match r {
                Ok((bal, n)) => sr == Ok::<(BalanceView, int), CamtErrorView>((bal@, n as int))
                    && n <= v@.len() - b,
                Err(e) => sr is Err && e@ == sr->Err_0,
            }
        }),
{
    proof {
        reveal(parse_balance);
    }
    let ghost s = v@.skip(b as int);
    let vlen = v.len();
    assert(vlen == v@.len());
    let o = match read_open_x(v, b) {
        Ok(o) => o,
        Err(e) => {
            return Err(e);
        },
    };
    let n0 = o.next - b;
    let st0 = stops0();
    proof {
        assert(s.skip(n0 as int) =~= v@.skip(o.next as int));
    }
    let (found, j) = match seek_x(v, o.next, "Tp", &st0) {
        Ok(p) => p,
        Err(e) => {
            return Err(e);
        },
    };
    if !found {
        return Err(missing_err("Bal/Tp"));
    }
    proof {
        assert(s.skip(n0 as int).skip(j as int) =~= v@.skip((o.next + j) as int));
    }
    let (code, n1) = match parse_balance_type_x(v, o.next + j) {
        Ok(p) => p,
        Err(e) => {
            return Err(e);
        },
    };
    let m1 = j + n1;
    proof {
        assert(s.skip((n0 + m1) as int) =~= v@.skip((o.next + m1) as int));
    }
    let (found2, j2) = match seek_x(v, o.next + m1, "Amt", &st0) {
        Ok(p) => p,
        Err(e) => {
            return Err(e);
        },
    };
    if !found2 {
        return Err(missing_err("Bal/Amt"));
    }
    proof {
        assert(s.skip((n0 + m1) as int).skip(j2 as int) =~= v@.skip((o.next + m1 + j2) as int));
    }
    let (amt, n2) = match parse_amount_elem_x(v, o.next + m1 + j2, "Amt", "Bal/Amt") {
        Ok(p) => p,
        Err(e) => {
            return Err(e);
        },
    };
    let m2 = j2 + n2;
    proof {
        assert(s.skip((n0 + m1 + m2) as int) =~= v@.skip((o.next + m1 + m2) as int));
    }
    let (cdi, m3) = match req_text_x(v, o.next + m1 + m2, "CdtDbtInd", "Bal/CdtDbtInd", &st0) {
        Ok(p) => p,
        Err(e) => {
            return Err(e);
        },
    };
    proof {
        assert(s.skip((n0 + m1 + m2 + m3) as int) =~= v@.skip((o.next + m1 + m2 + m3) as int));
    }
    let (found4, j4) = match seek_x(v, o.next + m1 + m2 + m3, "Dt", &st0) {
        Ok(p) => p,
        Err(e) => {
            return Err(e);
        },
    };
    if !found4 {
        return Err(missing_err("Bal/Dt"));
    }
    proof {
        assert(s.skip((n0 + m1 + m2 + m3) as int).skip(j4 as int) =~= v@.skip(
            (o.next + m1 + m2 + m3 + j4) as int,
        ));
    }
    let (dt, n4) = match parse_wrapped_date_x(v, o.next + m1 + m2 + m3 + j4, "Dt", "Bal/Dt/Dt") {
        Ok(p) => p,
        Err(e) => {
            return Err(e);
        },
    };
    let m4 = j4 + n4;
    proof {
        assert(s.skip((n0 + m1 + m2 + m3 + m4) as int) =~= v@.skip(
            (o.next + m1 + m2 + m3 + m4) as int,
        ));
    }
    let m5 = match finish_elem_x(v, o.next + m1 + m2 + m3 + m4, "Bal") {
        Ok(p) => p,
        Err(e) => {
            return Err(e);
        },
    };
    Ok(
        (
            Balance {
                type_: BalanceType { code_or_proprietary: CodeOrProprietary { code } },
                amount: amt,
                credit_debit_indicator: cdi,
                date: BalanceDate { date: dt },
            },
            n0 + m1 + m2 + m3 + m4 + m5,
        ),
    )
}

fn parse_postal_address_x(v: &Vec<char>, b: usize, adr_path: &str) -> (r: Result<
    (PostalAddress, usize),
    CamtError,
>)
    requires
        b <= v@.len(),
    ensures
        ({
            let sr = parse_postal_address(v@.skip(b as int), adr_path@);
            match r {
                Ok((pa, n)) => sr == Ok::<(PostalAddressView, int), CamtErrorView>(
                    (pa@, n as int),
                ) && n <= v@.len() - b,
                Err(e) => sr is Err && e@ == sr->Err_0,
            }
        }),
{
    proof {
        reveal(parse_postal_address);
    }
    let ghost s = v@.skip(b as int);
    let vlen = v.len();
    assert(vlen == v@.len());
    let o = match read_open_x(v, b) {
        Ok(o) => o,
        Err(e) => {
            return Err(e);
        },
    };
    let n0 = o.next - b;
    proof {
        assert(s.skip(n0 as int) =~= v@.skip(o.next as int));
    }
    let (lines, m1) = match text_list_x(v, o.next, "AdrLine", adr_path) {
        Ok(p) => p,
        Err(e) => {
            return Err(e);
        },
    };
    proof {
        assert(s.skip((n0 + m1) as int) =~= v@.skip((o.next + m1) as int));
    }
    let m2 = match finish_elem_x(v, o.next + m1, "PstlAdr") {
        Ok(p) => p,
        Err(e) => {
            return Err(e);
        },
    };
    Ok((PostalAddress { address_lines: lines }, n0 + m1 + m2))
}

fn parse_party_x(v: &Vec<char>, b: usize, tag: &str, nm_path: &str, adr_path: &str) -> (r: Result<
    ((String, PostalAddress), usize),
    CamtError,
>)
    requires
        b <= v@.len(),
    ensures
        ({
            let sr = parse_party(v@.skip(b as int), tag@, nm_path@, adr_path@);
            match r {
                Ok(((nm, pa), n)) => sr == Ok::<
                    ((Seq<char>, PostalAddressView), int),
                    CamtErrorView,
                >(((nm@, pa@), n as int)) && n <= v@.len() - b,
                Err(e) => sr is Err && e@ == sr->Err_0,
            }
        }),
{
    proof {
        reveal(parse_party);
    }
    let ghost s = v@.skip(b as int);
    let vlen = v.len();
    assert(vlen == v@.len());
    let o = match read_open_x(v, b) {
        Ok(o) => o,
        Err(e) => {
            return Err(e);
        },
    };
    let n0 = o.next - b;
    let st0 = stops0();
    proof {
        assert(s.skip(n0 as int) =~= v@.skip(o.next as int));
    }
    let (nm, m1) = match req_text_x(v, o.next, "Nm", nm_path, &st0) {
        Ok(p) => p,
        Err(e) => {
            return Err(e);
        },
    };
    proof {
        assert(s.skip((n0 + m1) as int) =~= v@.skip((o.next + m1) as int));
    }
    let (found, j) = match seek_x(v, o.next + m1, "PstlAdr", &st0) {
        Ok(p) => p,
        Err(e) => {
            return Err(e);
        },
    };
    if !found {
        return Err(missing_err(adr_path));
    }
    proof {
        assert(s.skip((n0 + m1) as int).skip(j as int) =~= v@.skip((o.next + m1 + j) as int));
    }
    let (pa, n2) = match parse_postal_address_x(v, o.next + m1 + j, adr_path) {
        Ok(p) => p,
        Err(e) => {
            return Err(e);
        },
    };
    let m2 = j + n2;
    proof {
        assert(s.skip((n0 + m1 + m2) as int) =~= v@.skip((o.next + m1 + m2) as int));
    }
    let m3 = match finish_elem_x(v, o.next + m1 + m2, tag) {
        Ok(p) => p,
        Err(e) => {
            return Err(e);
        },
    };
    Ok(((nm, pa), n0 + m1 + m2 + m3))
}

fn parse_references_x(v: &Vec<char>, b: usize) -> (r: Result<(References, usize), CamtError>)
    requires
        b <= v@.len(),
    ensures
        ({
            let sr = parse_references(v@.skip(b as int));
            match r {
                Ok((x, n)) => sr == Ok::<(ReferencesView, int), CamtErrorView>((x@, n as int)) && n
                    <= v@.len() - b,
                Err(e) => sr is Err && e@ == sr->Err_0,
            }
        }),
{
    proof {
        reveal(parse_references);
    }
    let ghost s = v@.skip(b as int);
    let vlen = v.len();
    assert(vlen == v@.len());
    let o = match read_open_x(v, b) {
        Ok(o) => o,
        Err(e) => {
            return Err(e);
        },
    };
    let n0 = o.next - b;
    let st0 = stops0();
    proof {
        assert(s.skip(n0 as int) =~= v@.skip(o.next as int));
    }
    let (val, m1) = match req_text_x(
        v,
        o.next,
        "AcctSvcrRef",
        "TxDtls/Refs/AcctSvcrRef",
        &st0,
    ) {
        Ok(p) => p,
        Err(e) => {
            return Err(e);
        },
    };
    proof {
        assert(s.skip((n0 + m1) as int) =~= v@.skip((o.next + m1) as int));
    }
    let m2 = match finish_elem_x(v, o.next + m1, "Refs") {
        Ok(p) => p,
        Err(e) => {
            return Err(e);
        },
    };
    Ok((References { account_servicer_reference: val }, n0 + m1 + m2))
}

fn parse_amount_details_x(v: &Vec<char>, b: usize) -> (r: Result<(Amount, usize), CamtError>)
    requires
        b <= v@.len(),
    ensures
        ({
            let sr = parse_amount_details(v@.skip(b as int));
            match r {
                Ok((x, n)) => sr == Ok::<(AmountView, int), CamtErrorView>((x@, n as int)) && n
                    <= v@.len() - b,
                Err(e) => sr is Err && e@ == sr->Err_0,
            }
        }),
{
    proof {
        reveal(parse_amount_details);
    }
    let ghost s = v@.skip(b as int);
    let vlen = v.len();
    assert(vlen == v@.len());
    let o = match read_open_x(v, b) {
        Ok(o) => o,
        Err(e) => {
            return Err(e);
        },
    };
    let n0 = o.next - b;
    let st0 = stops0();
    proof {
        assert(s.skip(n0 as int) =~= v@.skip(o.next as int));
    }
    let (found, j) = match seek_x(v, o.next, "TxAmt", &st0) {
        Ok(p) => p,
        Err(e) => {
            return Err(e);
        },
    };
    if !found {
        return Err(missing_err("TxDtls/AmtDtls/TxAmt"));
    }
    proof {
        assert(s.skip(n0 as int).skip(j as int) =~= v@.skip((o.next + j) as int));
    }
    let (amt, n1) = match parse_amount_elem_x(v, o.next + j, "TxAmt", "TxDtls/AmtDtls/TxAmt") {
        Ok(p) => p,
        Err(e) => {
            return Err(e);
        },
    };
    let m1 = j + n1;
    proof {
        assert(s.skip((n0 + m1) as int) =~= v@.skip((o.next + m1) as int));
    }
    let m2 = match finish_elem_x(v, o.next + m1, "AmtDtls") {
        Ok(p) => p,
        Err(e) => {
            return Err(e);
        },
    };
    Ok((amt, n0 + m1 + m2))
}

fn parse_related_parties_x(v: &Vec<char>, b: usize) -> (r: Result<
    (RelatedParties, usize),
    CamtError,
>)
    requires
        b <= v@.len(),
    ensures
        ({
            let sr = parse_related_parties(v@.skip(b as int));
            match r {
                Ok((x, n)) => sr == Ok::<(RelatedPartiesView, int), CamtErrorView>((x@, n as int))
                    && n <= v@.len() - b,
                Err(e) => sr is Err && e@ == sr->Err_0,
            }
        }),
{
    proof {
        reveal(parse_related_parties);
    }
    let ghost s = v@.skip(b as int);
    let vlen = v.len();
    assert(vlen == v@.len());
    let o = match read_open_x(v, b) {
        Ok(o) => o,
        Err(e) => {
            return Err(e);
        },
    };
    let n0 = o.next - b;
    let st0 = stops0();
    proof {
        assert(s.skip(n0 as int) =~= v@.skip(o.next as int));
    }
    let (found, j) = match seek_x(v, o.next, "Dbtr", &st0) {
        Ok(p) => p,
        Err(e) => {
            return Err(e);
        },
    };
    if !found {
        return Err(missing_err("TxDtls/RltdPties/Dbtr"));
    }
    proof {
        assert(s.skip(n0 as int).skip(j as int) =~= v@.skip((o.next + j) as int));
    }
    let (db, n1) = match parse_party_x(
        v,
        o.next + j,
        "Dbtr",
        "TxDtls/RltdPties/Dbtr/Nm",
        "Dbtr/PstlAdr/AdrLine",
    ) {
        Ok(p) => p,
        Err(e) => {
            return Err(e);
        },
    };
    let m1 = j + n1;
    proof {
        assert(s.skip((n0 + m1) as int) =~= v@.skip((o.next + m1) as int));
    }
    let (found2, j2) = match seek_x(v, o.next + m1, "Cdtr", &st0) {
        Ok(p) => p,
        Err(e) => {
            return Err(e);
        },
    };
    if !found2 {
        return Err(missing_err("TxDtls/RltdPties/Cdtr"));
    }
    proof {
        assert(s.skip((n0 + m1) as int).skip(j2 as int) =~= v@.skip((o.next + m1 + j2) as int));
    }
    let (cd, n2) = match parse_party_x(
        v,
        o.next + m1 + j2,
        "Cdtr",
        "TxDtls/RltdPties/Cdtr/Nm",
        "Cdtr/PstlAdr/AdrLine",
    ) {
        Ok(p) => p,
        Err(e) => {
            return Err(e);
        },
    };
    let m2 = j2 + n2;
    proof {
        assert(s.skip((n0 + m1 + m2) as int) =~= v@.skip((o.next + m1 + m2) as int));
    }
    let m3 = match finish_elem_x(v, o.next + m1 + m2, "RltdPties") {
        Ok(p) => p,
        Err(e) => {
            return Err(e);
        },
    };
    Ok(
        (
            RelatedParties {
                debtor: Debtor { name: db.0, postal_address: db.1 },
                creditor: Creditor { name: cd.0, postal_address: cd.1 },
            },
            n0 + m1 + m2 + m3,
        ),
    )
}

fn parse_remittance_information_x(v: &Vec<char>, b: usize) -> (r: Result<
    (RemittanceInformation, usize),
    CamtError,
>)
    requires
        b <= v@.len(),
    ensures
        ({
            let sr = parse_remittance_information(v@.skip(b as int));
            match r {
                Ok((x, n)) => sr == Ok::<(RemittanceInformationView, int), CamtErrorView>(
                    (x@, n as int),
                ) && n <= v@.len() - b,
                Err(e) => sr is Err && e@ == sr->Err_0,
            }
        }),
{
    proof {
        reveal(parse_remittance_information);
    }
    let ghost s = v@.skip(b as int);
    let vlen = v.len();
    assert(vlen == v@.len());
    let o = match read_open_x(v, b) {
        Ok(o) => o,
        Err(e) => {
            return Err(e);
        },
    };
    let n0 = o.next - b;
    let st0 = stops0();
    proof {
        assert(s.skip(n0 as int) =~= v@.skip(o.next as int));
    }
    let (val, m1) = match req_text_x(v, o.next, "Ustrd", "TxDtls/RmtInf/Ustrd", &st0) {
        Ok(p) => p,
        Err(e) => {
            return Err(e);
        },
    };
    proof {
        assert(s.skip((n0 + m1) as int) =~= v@.skip((o.next + m1) as int));
    }
    let m2 = match finish_elem_x(v, o.next + m1, "RmtInf") {
        Ok(p) => p,
        Err(e) => {
            return Err(e);
        },
    };
    Ok((RemittanceInformation { unstructured: val }, n0 + m1 + m2))
}

#[verifier::rlimit(60)]
fn parse_tx_details_x(v: &Vec<char>, b: usize) -> (r: Result<
    (TransactionDetails, usize),
    CamtError,
>)
    requires
        b <= v@.len(),
    ensures
        ({
            let sr = parse_tx_details(v@.skip(b as int));
            match r {
                Ok((x, n)) => sr == Ok::<(TransactionDetailsView, int), CamtErrorView>(
                    (x@, n as int),
                ) && n <= v@.len() - b,
                Err(e) => sr is Err && e@ == sr->Err_0,
            }
        }),
{
    proof {
        reveal(parse_tx_details);
    }
    let ghost s = v@.skip(b as int);
    let vlen = v.len();
    assert(vlen == v@.len());
    let o = match read_open_x(v, b) {
        Ok(o) => o,
        Err(e) => {
            return Err(e);
        },
    };
    let n0 = o.next - b;
    let st0 = stops0();
    proof {
        assert(s.skip(n0 as int) =~= v@.skip(o.next as int));
    }
    let (found, j) = match seek_x(v, o.next, "Refs", &st0) {
        Ok(p) => p,
        Err(e) => {
            return Err(e);
        },
    };
    if !found {
        return Err(missing_err("TxDtls/Refs"));
    }
    proof {
        assert(s.skip(n0 as int).skip(j as int) =~= v@.skip((o.next + j) as int));
    }
    let (refs, n1) = match parse_references_x(v, o.next + j) {
        Ok(p) => p,
        Err(e) => {
            return Err(e);
        },
    };
    let m1 = j + n1;
    proof {
        assert(s.skip((n0 + m1) as int) =~= v@.skip((o.next + m1) as int));
    }
    let (found2, j2) = match seek_x(v, o.next + m1, "AmtDtls", &st0) {
        Ok(p) => p,
        Err(e) => {
            return Err(e);
        },
    };
    if !found2 {
        return Err(missing_err("TxDtls/AmtDtls"));
    }
    proof {
        assert(s.skip((n0 + m1) as int).skip(j2 as int) =~= v@.skip((o.next + m1 + j2) as int));
    }
    let (amt, n2) = match parse_amount_details_x(v, o.next + m1 + j2) {
        Ok(p) => p,
        Err(e) => {
            return Err(e);
        },
    };
    let m2 = j2 + n2;
    proof {
        assert(s.skip((n0 + m1 + m2) as int) =~= v@.skip((o.next + m1 + m2) as int));
    }
    let (found3, j3) = match seek_x(v, o.next + m1 + m2, "RltdPties", &st0) {
        Ok(p) => p,
        Err(e) => {
            return Err(e);
        },
    };
    if !found3 {
        return Err(missing_err("TxDtls/RltdPties"));
    }
    proof {
        assert(s.skip((n0 + m1 + m2) as int).skip(j3 as int) =~= v@.skip(
            (o.next + m1 + m2 + j3) as int,
        ));
    }
    let (rp, n3) = match parse_related_parties_x(v, o.next + m1 + m2 + j3) {
        Ok(p) => p,
        Err(e) => {
            return Err(e);
        },
    };
    let m3 = j3 + n3;
    proof {
        assert(s.skip((n0 + m1 + m2 + m3) as int) =~= v@.skip((o.next + m1 + m2 + m3) as int));
    }
    let (found4, j4) = match seek_x(v, o.next + m1 + m2 + m3, "RmtInf", &st0) {
        Ok(p) => p,
        Err(e) => {
            return Err(e);
        },
    };
    if !found4 {
        return Err(missing_err("TxDtls/RmtInf"));
    }
    proof {
        assert(s.skip((n0 + m1 + m2 + m3) as int).skip(j4 as int) =~= v@.skip(
            (o.next + m1 + m2 + m3 + j4) as int,
        ));
    }
    let (rmt, n4) = match parse_remittance_information_x(v, o.next + m1 + m2 + m3 + j4) {
        Ok(p) => p,
        Err(e) => {
            return Err(e);
        },
    };
    let m4 = j4 + n4;
    proof {
        assert(s.skip((n0 + m1 + m2 + m3 + m4) as int) =~= v@.skip(
            (o.next + m1 + m2 + m3 + m4) as int,
        ));
    }
    let m5 = match finish_elem_x(v, o.next + m1 + m2 + m3 + m4, "TxDtls") {
        Ok(p) => p,
        Err(e) => {
            return Err(e);
        },
    };
    Ok(
        (
            TransactionDetails {
                references: refs,
                amount_details: AmountDetails { transaction_amount: amt },
                related_parties: rp,
                remittance_information: rmt,
            },
            n0 + m1 + m2 + m3 + m4 + m5,
        ),
    )
}

#[verifier::rlimit(40)]
fn parse_tx_list_x(v: &Vec<char>, b: usize) -> (r: Result<
    (Vec<TransactionDetails>, usize),
    CamtError,
>)
    requires
        b <= v@.len(),
    ensures
        ({
            let sr = parse_list(v@.skip(b as int), "TxDtls"@, tx_details_reader());
            match r {
                Ok((vals, n)) => sr == Ok::<(Seq<TransactionDetailsView>, int), CamtErrorView>(
                    (crate::model::tx_details_views(vals@), n as int),
                ) && n <= v@.len() - b,
                Err(e) => sr is Err && e@ == sr->Err_0,
            }
        }),
    decreases v@.len() - b,
{
    let ghost s = v@.skip(b as int);
    let n = v.len();
    let st0 = stops0();
    match seek_x(v, b, "TxDtls", &st0) {
        Err(e) => Err(e),
        Ok((found, j)) => {
            if !found {
                let out: Vec<TransactionDetails> = Vec::new();
                proof {
                    assert(crate::model::tx_details_views(out@) =~= Seq::<
                        TransactionDetailsView,
                    >::empty());
                }
                return Ok((out, j));
            }
            proof {
                assert(s.skip(j as int) =~= v@.skip((b + j) as int));
            }
            match parse_tx_details_x(v, b + j) {
                Err(e) => Err(e),
                Ok((val, n1)) => {
                    let jn = j + n1;
                    let j2: usize = if jn < 1 {
                        1
                    } else if jn > n - b {
                        n - b
                    } else {
                        jn
                    };
                    assert(j2 as int == bump(jn as int, s.len() as int));
                    proof {
                        assert(s.skip(j2 as int) =~= v@.skip((b + j2) as int));
                    }
                    match parse_tx_list_x(v, b + j2) {
                        Err(e) => Err(e),
                        Ok((mut rest, k)) => {
                            let ghost rest0 = rest@;
                            rest.insert(0, val);
                            proof {
                                assert(crate::model::tx_details_views(rest@) =~= seq![val@]
                                    + crate::model::tx_details_views(rest0));
                            }
                            Ok((rest, j2 + k))
                        },
                    }
                },
            }
        },
    }
}

fn parse_entry_details_x(v: &Vec<char>, b: usize) -> (r: Result<(EntryDetails, usize), CamtError>)
    requires
        b <= v@.len(),
    ensures
        ({
            let sr = parse_entry_details(v@.skip(b as int));
            match r {
                Ok((x, n)) => sr == Ok::<(EntryDetailsView, int), CamtErrorView>((x@, n as int))
                    && n <= v@.len() - b,
                Err(e) => sr is Err && e@ == sr->Err_0,
            }
        }),
{
    proof {
        reveal(parse_entry_details);
    }
    let ghost s = v@.skip(b as int);
    let vlen = v.len();
    assert(vlen == v@.len());
    let o = match read_open_x(v, b) {
        Ok(o) => o,
        Err(e) => {
            return Err(e);
        },
    };
    let n0 = o.next - b;
    proof {
        assert(s.skip(n0 as int) =~= v@.skip(o.next as int));
    }
    let (ts, m1) = match parse_tx_list_x(v, o.next) {
        Ok(p) => p,
        Err(e) => {
            return Err(e);
        },
    };
    proof {
        assert(s.skip((n0 + m1) as int) =~= v@.skip((o.next + m1) as int));
    }
    let m2 = match finish_elem_x(v, o.next + m1, "NtryDtls") {
        Ok(p) => p,
        Err(e) => {
            return Err(e);
        },
    };
    Ok((EntryDetails { transaction_details: ts }, n0 + m1 + m2))
}

fn parse_family_x(v: &Vec<char>, b: usize) -> (r: Result<(Family, usize), CamtError>)
    requires
        b <= v@.len(),
    ensures
        ({
            let sr = parse_family(v@.skip(b as int));
            match r {
                Ok((x, n)) => sr == Ok::<(FamilyView, int), CamtErrorView>((x@, n as int)) && n
                    <= v@.len() - b,
                Err(e) => sr is Err && e@ == sr->Err_0,
            }
        }),
{
    proof {
        reveal(parse_family);
    }
    let ghost s = v@.skip(b as int);
    let vlen = v.len();
    assert(vlen == v@.len());
    let o = match read_open_x(v, b) {
        Ok(o) => o,
        Err(e) => {
            return Err(e);
        },
    };
    let n0 = o.next - b;
    proof {
        assert(s.skip(n0 as int) =~= v@.skip(o.next as int));
    }
    let stf = stops1("SubFmlyCd");
    let (code, m1) = match req_text_x(v, o.next, "Cd", "Ntry/BkTxCd/Domn/Fmly/Cd", &stf) {
        Ok(p) => p,
        Err(e) => {
            return Err(e);
        },
    };
    proof {
        assert(s.skip((n0 + m1) as int) =~= v@.skip((o.next + m1) as int));
    }
    let st0 = stops0();
    let (sfc, m2) = match req_text_x(
        v,
        o.next + m1,
        "SubFmlyCd",
        "Ntry/BkTxCd/Domn/Fmly/SubFmlyCd",
        &st0,
    ) {
        Ok(p) => p,
        Err(e) => {
            return Err(e);
        },
    };
    proof {
        assert(s.skip((n0 + m1 + m2) as int) =~= v@.skip((o.next + m1 + m2) as int));
    }
    let m3 = match finish_elem_x(v, o.next + m1 + m2, "Fmly") {
        Ok(p) => p,
        Err(e) => {
            return Err(e);
        },
    };
    Ok((Family { code, sub_family_code: sfc }, n0 + m1 + m2 + m3))
}

fn parse_domain_x(v: &Vec<char>, b: usize) -> (r: Result<(Domain, usize), CamtError>)
    requires
        b <= v@.len(),
    ensures
        ({
            let sr = parse_domain(v@.skip(b as int));
            match r {
                Ok((x, n)) => sr == Ok::<(DomainView, int), CamtErrorView>((x@, n as int)) && n
                    <= v@.len() - b,
                Err(e) => sr is Err && e@ == sr->Err_0,
            }
        }),
{
    proof {
        reveal(parse_domain);
    }
    let ghost s = v@.skip(b as int);
    let vlen = v.len();
    assert(vlen == v@.len());
    let o = match read_open_x(v, b) {
        Ok(o) => o,
        Err(e) => {
            return Err(e);
        },
    };
    let n0 = o.next - b;
    proof {
        assert(s.skip(n0 as int) =~= v@.skip(o.next as int));
    }
    let stf = stops1("Fmly");
    let (code, m1) = match req_text_x(v, o.next, "Cd", "Ntry/BkTxCd/Domn/Cd", &stf) {
        Ok(p) => p,
        Err(e) => {
            return Err(e);
        },
    };
    proof {
        assert(s.skip((n0 + m1) as int) =~= v@.skip((o.next + m1) as int));
    }
    let st0 = stops0();
    let (found, j) = match seek_x(v, o.next + m1, "Fmly", &st0) {
        Ok(p) => p,
        Err(e) => {
            return Err(e);
        },
    };
    if !found {
        return Err(missing_err("Ntry/BkTxCd/Domn/Fmly"));
    }
    proof {
        assert(s.skip((n0 + m1) as int).skip(j as int) =~= v@.skip((o.next + m1 + j) as int));
    }
    let (fam, n2) = match parse_family_x(v, o.next + m1 + j) {
        Ok(p) => p,
        Err(e) => {
            return Err(e);
        },
    };
    let m2 = j + n2;
    proof {
        assert(s.skip((n0 + m1 + m2) as int) =~= v@.skip((o.next + m1 + m2) as int));
    }
    let m3 = match finish_elem_x(v, o.next + m1 + m2, "Domn") {
        Ok(p) => p,
        Err(e) => {
            return Err(e);
        },
    };
    Ok((Domain { code, family: fam }, n0 + m1 + m2 + m3))
}

fn parse_bank_transaction_code_x(v: &Vec<char>, b: usize) -> (r: Result<
    (BankTransactionCode, usize),
    CamtError,
>)
    requires
        b <= v@.len(),
    ensures
        ({
            let sr = parse_bank_transaction_code(v@.skip(b as int));
            match r {
                Ok((x, n)) => sr == Ok::<(BankTransactionCodeView, int), CamtErrorView>(
                    (x@, n as int),
                ) && n <= v@.len() - b,
                Err(e) => sr is Err && e@ == sr->Err_0,
            }
        }),
{
    proof {
        reveal(parse_bank_transaction_code);
    }
    let ghost s = v@.skip(b as int);
    let vlen = v.len();
    assert(vlen == v@.len());
    let o = match read_open_x(v, b) {
        Ok(o) => o,
        Err(e) => {
            return Err(e);
        },
    };
    let n0 = o.next - b;
    let st0 = stops0();
    proof {
        assert(s.skip(n0 as int) =~= v@.skip(o.next as int));
    }
    let (found, j) = match seek_x(v, o.next, "Domn", &st0) {
        Ok(p) => p,
        Err(e) => {
            return Err(e);
        },
    };
    if !found {
        return Err(missing_err("Ntry/BkTxCd/Domn"));
    }
    proof {
        assert(s.skip(n0 as int).skip(j as int) =~= v@.skip((o.next + j) as int));
    }
    let (dom, n1) = match parse_domain_x(v, o.next + j) {
        Ok(p) => p,
        Err(e) => {
            return Err(e);
        },
    };
    let m1 = j + n1;
    proof {
        assert(s.skip((n0 + m1) as int) =~= v@.skip((o.next + m1) as int));
    }
    let m2 = match finish_elem_x(v, o.next + m1, "BkTxCd") {
        Ok(p) => p,
        Err(e) => {
            return Err(e);
        },
    };
    Ok((BankTransactionCode { domain: dom }, n0 + m1 + m2))
}

#[verifier::rlimit(100)]
fn parse_entry_x(v: &Vec<char>, b: usize) -> (r: Result<(Entry, usize), CamtError>)
    requires
        b <= v@.len(),
    ensures
        ({
            let sr = parse_entry(v@.skip(b as int));
            match r {
                Ok((x, n)) => sr == Ok::<(EntryView, int), CamtErrorView>((x@, n as int)) && n
                    <= v@.len() - b,
                Err(e) => sr is Err && e@ == sr->Err_0,
            }
        }),
{
    proof {
        reveal(parse_entry);
    }
    let ghost s = v@.skip(b as int);
    let vlen = v.len();
    assert(vlen == v@.len());
    let o = match read_open_x(v, b) {
        Ok(o) => o,
        Err(e) => {
            return Err(e);
        },
    };
    let n0 = o.next - b;
    let st0 = stops0();
    proof {
        crate::chars::lemma_skip_skip(v@, b as int, n0 as int);
    }
    let (found, j) = match seek_x(v, o.next, "Amt", &st0) {
        Ok(p) => p,
        Err(e) => {
            return Err(e);
        },
    };
    if !found {
        return Err(missing_err("Ntry/Amt"));
    }
    proof {
        crate::chars::lemma_skip_skip(v@, o.next as int, j as int);
    }
    let (amt, na) = match parse_amount_elem_x(v, o.next + j, "Amt", "Ntry/Amt") {
        Ok(p) => p,
        Err(e) => {
            return Err(e);
        },
    };
    let m1 = j + na;
    proof {
        crate::chars::lemma_skip_skip(v@, b as int, (n0 + m1) as int);
    }
    let (cdi, m2) = match req_text_x(v, o.next + m1, "CdtDbtInd", "Ntry/CdtDbtInd", &st0) {
        Ok(p) => p,
        Err(e) => {
            return Err(e);
        },
    };
    proof {
        crate::chars::lemma_skip_skip(v@, b as int, (n0 + m1 + m2) as int);
    }
    let (sts, m3) = match req_text_x(v, o.next + m1 + m2, "Sts", "Ntry/Sts", &st0) {
        Ok(p) => p,
        Err(e) => {
            return Err(e);
        },
    };
    proof {
        crate::chars::lemma_skip_skip(v@, b as int, (n0 + m1 + m2 + m3) as int);
    }
    let (found4, j4) = match seek_x(v, o.next + m1 + m2 + m3, "BookgDt", &st0) {
        Ok(p) => p,
        Err(e) => {
            return Err(e);
        },
    };
    if !found4 {
        return Err(missing_err("Ntry/BookgDt"));
    }
    proof {
        crate::chars::lemma_skip_skip(v@, (o.next + m1 + m2 + m3) as int, j4 as int);
    }
    let (bdt, n4) = match parse_wrapped_date_x(
        v,
        o.next + m1 + m2 + m3 + j4,
        "BookgDt",
        "Ntry/BookgDt/Dt",
    ) {
        Ok(p) => p,
        Err(e) => {
            return Err(e);
        },
    };
    let m4 = j4 + n4;
    let p4 = o.next + m1 + m2 + m3 + m4;
    proof {
        crate::chars::lemma_skip_skip(v@, b as int, (n0 + m1 + m2 + m3 + m4) as int);
    }
    let (found5, j5) = match seek_x(v, p4, "ValDt", &st0) {
        Ok(p) => p,
        Err(e) => {
            return Err(e);
        },
    };
    if !found5 {
        return Err(missing_err("Ntry/ValDt"));
    }
    proof {
        crate::chars::lemma_skip_skip(v@, p4 as int, j5 as int);
    }
    let (vdt, n5) = match parse_wrapped_date_x(v, p4 + j5, "ValDt", "Ntry/ValDt/Dt") {
        Ok(p) => p,
        Err(e) => {
            return Err(e);
        },
    };
    let m5 = j5 + n5;
    proof {
        crate::chars::lemma_skip_skip(v@, b as int, (n0 + m1 + m2 + m3 + m4 + m5) as int);
    }
    let (asr, m6) = match req_text_x(v, p4 + m5, "AcctSvcrRef", "Ntry/AcctSvcrRef", &st0) {
        Ok(p) => p,
        Err(e) => {
            return Err(e);
        },
    };
    proof {
        crate::chars::lemma_skip_skip(v@, b as int, (n0 + m1 + m2 + m3 + m4 + m5 + m6) as int);
    }
    let (found7, j7) = match seek_x(v, p4 + m5 + m6, "BkTxCd", &st0) {
        Ok(p) => p,
        Err(e) => {
            return Err(e);
        },
    };
    if !found7 {
        return Err(missing_err("Ntry/BkTxCd"));
    }
    proof {
        crate::chars::lemma_skip_skip(v@, (p4 + m5 + m6) as int, j7 as int);
    }
    let (btc, n7) = match parse_bank_transaction_code_x(v, p4 + m5 + m6 + j7) {
        Ok(p) => p,
        Err(e) => {
            return Err(e);
        },
    };
    let m7 = j7 + n7;
    let p7 = p4 + m5 + m6 + m7;
    proof {
        crate::chars::lemma_skip_skip(
            v@,
            b as int,
            (n0 + m1 + m2 + m3 + m4 + m5 + m6 + m7) as int,
        );
    }
    let (found8, j8) = match seek_x(v, p7, "NtryDtls", &st0) {
        Ok(p) => p,
        Err(e) => {
            return Err(e);
        },
    };
    if !found8 {
        return Err(missing_err("Ntry/NtryDtls"));
    }
    proof {
        crate::chars::lemma_skip_skip(v@, p7 as int, j8 as int);
    }
    let (ed, n8) = match parse_entry_details_x(v, p7 + j8) {
        Ok(p) => p,
        Err(e) => {
            return Err(e);
        },
    };
    let m8 = j8 + n8;
    proof {
        crate::chars::lemma_skip_skip(
            v@,
            b as int,
            (n0 + m1 + m2 + m3 + m4 + m5 + m6 + m7 + m8) as int,
        );
    }
    let m9 = match finish_elem_x(v, p7 + m8, "Ntry") {
        Ok(p) => p,
        Err(e) => {
            return Err(e);
        },
    };
    Ok(
        (
            Entry {
                amount: amt,
                credit_debit_indicator: cdi,
                status: sts,
                booking_date: EntryDate { date: bdt },
                value_date: EntryDate { date: vdt },
                account_servicer_reference: asr,
                bank_transaction_code: btc,
                entry_details: ed,
            },
            n0 + m1 + m2 + m3 + m4 + m5 + m6 + m7 + m8 + m9,
        ),
    )
}

#[verifier::rlimit(40)]
fn parse_entries_x(v: &Vec<char>, b: usize) -> (r: Result<(Vec<Entry>, usize), CamtError>)
    requires
        b <= v@.len(),
    ensures
        ({
            let sr = parse_list(v@.skip(b as int), "Ntry"@, entry_reader());
            match r {
                Ok((vals, n)) => sr == Ok::<(Seq<EntryView>, int), CamtErrorView>(
                    (crate::model::entry_views(vals@), n as int),
                ) && n <= v@.len() - b,
                Err(e) => sr is Err && e@ == sr->Err_0,
            }
        }),
    decreases v@.len() - b,
{
    let ghost s = v@.skip(b as int);
    let n = v.len();
    let st0 = stops0();
    match seek_x(v, b, "Ntry", &st0) {
        Err(e) => Err(e),
        Ok((found, j)) => {
            if !found {
                let out: Vec<Entry> = Vec::new();
                proof {
                    assert(crate::model::entry_views(out@) =~= Seq::<EntryView>::empty());
                }
                return Ok((out, j));
            }
            proof {
                assert(s.skip(j as int) =~= v@.skip((b + j) as int));
            }
            match parse_entry_x(v, b + j) {
                Err(e) => Err(e),
                Ok((val, n1)) => {
                    let jn = j + n1;
                    let j2: usize = if jn < 1 {
                        1
                    } else if jn > n - b {
                        n - b
                    } else {
                        jn
                    };
                    assert(j2 as int == bump(jn as int, s.len() as int));
                    proof {
                        assert(s.skip(j2 as int) =~= v@.skip((b + j2) as int));
                    }
                    match parse_entries_x(v, b + j2) {
                        Err(e) => Err(e),
                        Ok((mut rest, k)) => {
                            let ghost rest0 = rest@;
                            rest.insert(0, val);
                            proof {
                                assert(crate::model::entry_views(rest@) =~= seq![val@]
                                    + crate::model::entry_views(rest0));
                            }
                            Ok((rest, j2 + k))
                        },
                    }
                },
            }
        },
    }
}

#[verifier::rlimit(100)]
fn parse_statement_x(v: &Vec<char>, b: usize) -> (r: Result<(Statement, usize), CamtError>)
    requires
        b <= v@.len(),
    ensures
        ({
            let sr = parse_statement(v@.skip(b as int));
            match r {
                Ok((x, n)) => sr == Ok::<(StatementView, int), CamtErrorView>((x@, n as int)) && n
                    <= v@.len() - b,
                Err(e) => sr is Err && e@ == sr->Err_0,
            }
        }),
{
    proof {
        reveal(parse_statement);
    }
    let ghost s = v@.skip(b as int);
    let vlen = v.len();
    assert(vlen == v@.len());
    let o = match read_open_x(v, b) {
        Ok(o) => o,
        Err(e) => {
            return Err(e);
        },
    };
    let n0 = o.next - b;
    proof {
        assert(s.skip(n0 as int) =~= v@.skip(o.next as int));
    }
    let st_id = stops3("ElctrncSeqNb", "LglSeqNb", "CreDtTm");
    let (id, m1) = match req_text_x(v, o.next, "Id", "Stmt/Id", &st_id) {
        Ok(p) => p,
        Err(e) => {
            return Err(e);
        },
    };
    proof {
        assert(s.skip((n0 + m1) as int) =~= v@.skip((o.next + m1) as int));
    }
    let st_esn = stops2("LglSeqNb", "CreDtTm");
    let (esn, m2) = match opt_num_x(v, o.next + m1, "ElctrncSeqNb", "Stmt/ElctrncSeqNb", &st_esn) {
        Ok(p) => p,
        Err(e) => {
            return Err(e);
        },
    };
    proof {
        assert(s.skip((n0 + m1 + m2) as int) =~= v@.skip((o.next + m1 + m2) as int));
    }
    let st_lsn = stops1("CreDtTm");
    let (lsn, m3) = match opt_num_x(v, o.next + m1 + m2, "LglSeqNb", "Stmt/LglSeqNb", &st_lsn) {
        Ok(p) => p,
        Err(e) => {
            return Err(e);
        },
    };
    proof {
        assert(s.skip((n0 + m1 + m2 + m3) as int) =~= v@.skip((o.next + m1 + m2 + m3) as int));
    }
    let st_cre = stops1("Acct");
    let (cre, m4) = match req_text_x(v, o.next + m1 + m2 + m3, "CreDtTm", "Stmt/CreDtTm", &st_cre) {
        Ok(p) => p,
        Err(e) => {
            return Err(e);
        },
    };
    let p4 = o.next + m1 + m2 + m3 + m4;
    proof {
        assert(s.skip((n0 + m1 + m2 + m3 + m4) as int) =~= v@.skip(p4 as int));
    }
    let st_acct = stops2("Bal", "Ntry");
    let (found5, j5) = match seek_x(v, p4, "Acct", &st_acct) {
        Ok(p) => p,
        Err(e) => {
            return Err(e);
        },
    };
    if !found5 {
        return Err(missing_err("Stmt/Acct"));
    }
    proof {
        assert(s.skip((n0 + m1 + m2 + m3 + m4) as int).skip(j5 as int) =~= v@.skip(
            (p4 + j5) as int,
        ));
    }
    let (acct, n5) = match parse_account_x(v, p4 + j5) {
        Ok(p) => p,
        Err(e) => {
            return Err(e);
        },
    };
    let m5 = j5 + n5;
    proof {
        assert(s.skip((n0 + m1 + m2 + m3 + m4 + m5) as int) =~= v@.skip((p4 + m5) as int));
    }
    let st_bal = stops1("Ntry");
    let (found6, j6) = match seek_x(v, p4 + m5, "Bal", &st_bal) {
        Ok(p) => p,
        Err(e) => {
            return Err(e);
        },
    };
    let (bal, m6): (Option<Balance>, usize) = if found6 {
        proof {
            assert(s.skip((n0 + m1 + m2 + m3 + m4 + m5) as int).skip(j6 as int) =~= v@.skip(
                (p4 + m5 + j6) as int,
            ));
        }
        match parse_balance_x(v, p4 + m5 + j6) {
            Ok((b2, n6)) => (Some(b2), j6 + n6),
            Err(e) => {
                return Err(e);
            },
        }
    } else {
        (None, j6)
    };
    let p6 = p4 + m5 + m6;
    proof {
        assert(s.skip((n0 + m1 + m2 + m3 + m4 + m5 + m6) as int) =~= v@.skip(p6 as int));
    }
    let (entries, m7) = match parse_entries_x(v, p6) {
        Ok(p) => p,
        Err(e) => {
            return Err(e);
        },
    };
    proof {
        assert(s.skip((n0 + m1 + m2 + m3 + m4 + m5 + m6 + m7) as int) =~= v@.skip(
            (p6 + m7) as int,
        ));
    }
    let m8 = match finish_elem_x(v, p6 + m7, "Stmt") {
        Ok(p) => p,
        Err(e) => {
            return Err(e);
        },
    };
    Ok(
        (
            Statement {
                id,
                electronic_sequence_number: esn,
                legal_sequence_number: lsn,
                creation_date_time: cre,
                account: acct,
                balance: bal,
                entries,
            },
            n0 + m1 + m2 + m3 + m4 + m5 + m6 + m7 + m8,
        ),
    )
}

#[verifier::rlimit(40)]
fn parse_statements_x(v: &Vec<char>, b: usize) -> (r: Result<(Vec<Statement>, usize), CamtError>)
    requires
        b <= v@.len(),
    ensures
        ({
            let sr = parse_list(v@.skip(b as int), "Stmt"@, statement_reader());
            match r {
                Ok((vals, n)) => sr == Ok::<(Seq<StatementView>, int), CamtErrorView>(
                    (crate::model::statement_views(vals@), n as int),
                ) && n <= v@.len() - b,
                Err(e) => sr is Err && e@ == sr->Err_0,
            }
        }),
    decreases v@.len() - b,
{
    let ghost s = v@.skip(b as int);
    let n = v.len();
    let st0 = stops0();
    match seek_x(v, b, "Stmt", &st0) {
        Err(e) => Err(e),
        Ok((found, j)) => {
            if !found {
                let out: Vec<Statement> = Vec::new();
                proof {
                    assert(crate::model::statement_views(out@) =~= Seq::<StatementView>::empty());
                }
                return Ok((out, j));
            }
            proof {
                assert(s.skip(j as int) =~= v@.skip((b + j) as int));
            }
            match parse_statement_x(v, b + j) {
                Err(e) => Err(e),
                Ok((val, n1)) => {
                    let jn = j + n1;
                    let j2: usize = if jn < 1 {
                        1
                    } else if jn > n - b {
                        n - b
                    } else {
                        jn
                    };
                    assert(j2 as int == bump(jn as int, s.len() as int));
                    proof {
                        assert(s.skip(j2 as int) =~= v@.skip((b + j2) as int));
                    }
                    match parse_statements_x(v, b + j2) {
                        Err(e) => Err(e),
                        Ok((mut rest, k)) => {
                            let ghost rest0 = rest@;
                            rest.insert(0, val);
                            proof {
                                assert(crate::model::statement_views(rest@) =~= seq![val@]
                                    + crate::model::statement_views(rest0));
                            }
                            Ok((rest, j2 + k))
                        },
                    }
                },
            }
        },
    }
}

#[verifier::rlimit(40)]
fn parse_envelope_x(v: &Vec<char>, b: usize) -> (r: Result<
    (BankToCustomerStatement, usize),
    CamtError,
>)
    requires
        b <= v@.len(),
    ensures
        ({
            let sr = parse_envelope(v@.skip(b as int));
            match r {
                Ok((x, n)) => sr == Ok::<(BankToCustomerStatementView, int), CamtErrorView>(
                    (x@, n as int),
                ) && n <= v@.len() - b,
                Err(e) => sr is Err && e@ == sr->Err_0,
            }
        }),
{
    proof {
        reveal(parse_envelope);
    }
    let ghost s = v@.skip(b as int);
    let vlen = v.len();
    assert(vlen == v@.len());
    let o = match read_open_x(v, b) {
        Ok(o) => o,
        Err(e) => {
            return Err(e);
        },
    };
    let n0 = o.next - b;
    proof {
        assert(s.skip(n0 as int) =~= v@.skip(o.next as int));
    }
    let st_gh = stops1("Stmt");
    let (found, j) = match seek_x(v, o.next, "GrpHdr", &st_gh) {
        Ok(p) => p,
        Err(e) => {
            return Err(e);
        },
    };
    if !found {
        return Err(missing_err("BkToCstmrStmt/GrpHdr"));
    }
    proof {
        assert(s.skip(n0 as int).skip(j as int) =~= v@.skip((o.next + j) as int));
    }
    let (gh, n1) = match parse_group_header_x(v, o.next + j) {
        Ok(p) => p,
        Err(e) => {
            return Err(e);
        },
    };
    let m1 = j + n1;
    proof {
        assert(s.skip((n0 + m1) as int) =~= v@.skip((o.next + m1) as int));
    }
    let (stmts, m2) = match parse_statements_x(v, o.next + m1) {
        Ok(p) => p,
        Err(e) => {
            return Err(e);
        },
    };
    if stmts.len() == 0 {
        return Err(missing_err("BkToCstmrStmt/Stmt"));
    }
    proof {
        assert(s.skip((n0 + m1 + m2) as int) =~= v@.skip((o.next + m1 + m2) as int));
    }
    let m3 = match finish_elem_x(v, o.next + m1 + m2, "BkToCstmrStmt") {
        Ok(p) => p,
        Err(e) => {
            return Err(e);
        },
    };
    Ok(
        (
            BankToCustomerStatement { group_header: gh, statements: stmts },
            n0 + m1 + m2 + m3,
        ),
    )
}

/// Parses XML text into a document. The result is exactly what the spec
/// reader `parse_camt053_spec` says: success returns the document whose view
/// the spec reader computes, failure returns exactly the error it names.
#[verifier::rlimit(40)]
pub fn parse_camt053(xml: &str) -> (r: Result<Document, CamtError>)
    ensures
        ({
            let sr = parse_camt053_spec(xml@);
            match r {
                Ok(d) => sr == Ok::<DocumentView, CamtErrorView>(d@),
                Err(e) => sr is Err && e@ == sr->Err_0,
            }
        }),
{
    proof {
        reveal(parse_camt053_spec);
    }
    let v = chars_of(xml);
    let n = v.len();
    proof {
        assert(v@.skip(0) =~= v@);
    }
    let t = scan_text_x(&v, 0, 0);
    if t == n {
        return Err(CamtError::UnsupportedStructure(String::from_str("Document")));
    }
    let o = match read_open_x(&v, t) {
        Ok(o) => o,
        Err(e) => {
            return Err(e);
        },
    };
    if !range_eq_str(&v, o.name_lo, o.name_hi, "Document") {
        return Err(CamtError::UnsupportedStructure(string_of_range(&v, o.name_lo, o.name_hi)));
    }
    let has_xmlns = match &o.attr_value {
        Some(_) => range_eq_str(&v, o.attr_name_lo, o.attr_name_hi, "xmlns"),
        None => false,
    };
    let xmlns: String = match o.attr_value {
        Some(av) => if has_xmlns {
            av
        } else {
            crate::model::default_xmlns()
        },
        None => crate::model::default_xmlns(),
    };
    let st0 = stops0();
    proof {
        assert(v@.skip(o.next as int) == xml@.skip((t + (o.next - t)) as int));
    }
    let (found, j) = match seek_x(&v, o.next, "BkToCstmrStmt", &st0) {
        Ok(p) => p,
        Err(e) => {
            return Err(e);
        },
    };
    if !found {
        return Err(missing_err("Document/BkToCstmrStmt"));
    }
    proof {
        assert(v@.skip(o.next as int).skip(j as int) =~= v@.skip((o.next + j) as int));
    }
    let (env, n1) = match parse_envelope_x(&v, o.next + j) {
        Ok(p) => p,
        Err(e) => {
            return Err(e);
        },
    };
    let m1 = j + n1;
    proof {
        assert(v@.skip(o.next as int).skip(m1 as int) =~= v@.skip((o.next + m1) as int));
    }
    let m2 = match finish_elem_x(&v, o.next + m1, "Document") {
        Ok(p) => p,
        Err(e) => {
            return Err(e);
        },
    };
    let p2 = o.next + m1 + m2;
    let t2 = scan_text_x(&v, 0, p2);
    if t2 == n {
        Ok(Document { xmlns, statement: env })
    } else {
        Err(bad_xml_err())
    }
}

} // verus!
