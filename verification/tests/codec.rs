use camt053::build_camt053_document;
use camt053::default_xmlns;
use camt053::generate_camt053;
use camt053::parse_camt053;
use camt053::Account;
use camt053::AccountId;
use camt053::AccountIdKind;
use camt053::Amount;
use camt053::AmountDetails;
use camt053::Balance;
use camt053::BalanceDate;
use camt053::BalanceType;
use camt053::BankToCustomerStatement;
use camt053::BankTransactionCode;
use camt053::CamtError;
use camt053::CodeOrProprietary;
use camt053::Creditor;
use camt053::Debtor;
use camt053::Document;
use camt053::Domain;
use camt053::Entry;
use camt053::EntryDate;
use camt053::EntryDetails;
use camt053::Family;
use camt053::GroupHeader;
use camt053::PostalAddress;
use camt053::References;
use camt053::RelatedParties;
use camt053::RemittanceInformation;
use camt053::Statement;
use camt053::Transaction;
use camt053::TransactionDetails;

fn amount(ccy: &str, value: &str) -> Amount {
    Amount {
        currency: ccy.to_string(),
        value: value.to_string(),
    }
}

fn tx_details(reference: &str, ccy: &str, value: &str, remit: &str) -> TransactionDetails {
    TransactionDetails {
        references: References {
            account_servicer_reference: reference.to_string(),
        },
        amount_details: AmountDetails {
            transaction_amount: amount(ccy, value),
        },
        related_parties: RelatedParties {
            debtor: Debtor {
                name: "John Doe".to_string(),
                postal_address: PostalAddress {
                    address_lines: vec![
                        "123 Main Street".to_string(),
                        "City, Country".to_string(),
                    ],
                },
            },
            creditor: Creditor {
                name: "Jane Smith".to_string(),
                postal_address: PostalAddress {
                    address_lines: vec![
                        "456 Secondary Street".to_string(),
                        "Another City, Country".to_string(),
                    ],
                },
            },
        },
        remittance_information: RemittanceInformation {
            unstructured: remit.to_string(),
        },
    }
}

fn entry(ccy: &str, value: &str, cdi: &str, date: &str, reference: &str, details: Vec<TransactionDetails>) -> Entry {
    Entry {
        amount: amount(ccy, value),
        credit_debit_indicator: cdi.to_string(),
        status: "BOOK".to_string(),
        booking_date: EntryDate {
            date: date.to_string(),
        },
        value_date: EntryDate {
            date: date.to_string(),
        },
        account_servicer_reference: reference.to_string(),
        bank_transaction_code: BankTransactionCode {
            domain: Domain {
                code: "PMNT".to_string(),
                family: Family {
                    code: "ICDT".to_string(),
                    sub_family_code: "DMCT".to_string(),
                },
            },
        },
        entry_details: EntryDetails {
            transaction_details: details,
        },
    }
}

fn sample_statement(entries: Vec<Entry>) -> Statement {
    Statement {
        id: "Statement12345".to_string(),
        electronic_sequence_number: None,
        legal_sequence_number: None,
        creation_date_time: "2023-05-15 10:00:00".to_string(),
        account: Account {
            id: AccountId {
                id: AccountIdKind::Iban("DE89370400440532013000".to_string()),
            },
        },
        balance: Some(Balance {
            type_: BalanceType {
                code_or_proprietary: CodeOrProprietary {
                    code: "OPBD".to_string(),
                },
            },
            amount: amount("EUR", "1000.00"),
            credit_debit_indicator: "CRDT".to_string(),
            date: BalanceDate {
                date: "2023-05-14".to_string(),
            },
        }),
        entries,
    }
}

fn sample_document(entries: Vec<Entry>) -> Document {
    Document {
        xmlns: "urn:iso:std:iso:20022:tech:xsd:camt.053.001.02".to_string(),
        statement: BankToCustomerStatement {
            group_header: GroupHeader {
                message_id: "Message12345".to_string(),
                creation_date_time: "2023-05-16 12:30:00".to_string(),
            },
            statements: vec![sample_statement(entries)],
        },
    }
}

#[test]
fn test_generate_camt053() {
    let transactions = vec![
        Transaction {
            amount: amount("EUR", "-100.00"),
            credit_debit_indicator: "DBIT".to_string(),
            status: "BOOK".to_string(),
            booking_date: EntryDate {
                date: "2023-05-14".to_string(),
            },
            value_date: EntryDate {
                date: "2023-05-14".to_string(),
            },
            account_servicer_reference: "Ref12345".to_string(),
            bank_transaction_code: BankTransactionCode {
                domain: Domain {
                    code: "PMNT".to_string(),
                    family: Family {
                        code: "ICDT".to_string(),
                        sub_family_code: "DMCT".to_string(),
                    },
                },
            },
            entry_details: vec![
                tx_details("Ref67890", "EUR", "-50.00", "Payment for invoice #1234"),
                tx_details("Ref67891", "EUR", "-50.00", "Payment for invoice #1235"),
            ],
        },
        Transaction {
            amount: amount("EUR", "-150.00"),
            credit_debit_indicator: "DBIT".to_string(),
            status: "BOOK".to_string(),
            booking_date: EntryDate {
                date: "2023-05-15".to_string(),
            },
            value_date: EntryDate {
                date: "2023-05-15".to_string(),
            },
            account_servicer_reference: "Ref12346".to_string(),
            bank_transaction_code: BankTransactionCode {
                domain: Domain {
                    code: "PMNT".to_string(),
                    family: Family {
                        code: "ICDT".to_string(),
                        sub_family_code: "DMCT".to_string(),
                    },
                },
            },
            entry_details: vec![
                tx_details("Ref67892", "EUR", "-50.00", "Payment for invoice #1236"),
                tx_details("Ref67893", "EUR", "-50.00", "Payment for invoice #1237"),
                tx_details("Ref67894", "EUR", "-50.00", "Payment for invoice #1238"),
            ],
        },
    ];

    let doc = build_camt053_document(
        "Message12345",
        "2023-05-16 12:30:00",
        "Statement12345",
        "2023-05-15 10:00:00",
        "DE89370400440532013000",
        "OPBD",
        "1000.00",
        "EUR",
        "CRDT",
        "2023-05-14",
        transactions,
    );
    let xml = generate_camt053(&doc).expect("Failed to generate CAMT.053 text");

    assert!(xml.contains("<MsgId>Message12345</MsgId>"));
    assert!(xml.contains("<CreDtTm>2023-05-16 12:30:00</CreDtTm>"));
    assert!(xml.contains("<Id>Statement12345</Id>"));
    assert!(xml.contains("<CreDtTm>2023-05-15 10:00:00</CreDtTm>"));
    assert!(xml.contains("<IBAN>DE89370400440532013000</IBAN>"));
    assert!(xml.contains("<Cd>OPBD</Cd>"));
    assert!(xml.contains("<Amt Ccy=\"EUR\">1000.00</Amt>"));
    assert!(xml.contains("<CdtDbtInd>CRDT</CdtDbtInd>"));
    assert!(xml.contains("<Dt>2023-05-14</Dt>"));
    assert!(xml.contains("<Amt Ccy=\"EUR\">-100.00</Amt>"));
    assert!(xml.contains("<CdtDbtInd>DBIT</CdtDbtInd>"));
    assert!(xml.contains("<Sts>BOOK</Sts>"));
    assert!(xml.contains("<AcctSvcrRef>Ref12345</AcctSvcrRef>"));
    assert!(xml.contains("<Cd>PMNT</Cd>"));
    assert!(xml.contains("<Cd>ICDT</Cd>"));
    assert!(xml.contains("<SubFmlyCd>DMCT</SubFmlyCd>"));
    assert!(xml.contains("<AcctSvcrRef>Ref67890</AcctSvcrRef>"));
    assert!(xml.contains("<Nm>John Doe</Nm>"));
    assert!(xml.contains("<Nm>Jane Smith</Nm>"));
    assert!(xml.contains("<Ustrd>Payment for invoice #1234</Ustrd>"));
    assert!(xml.contains("<AdrLine>123 Main Street</AdrLine>"));
    assert!(xml.starts_with("<Document xmlns=\"urn:iso:std:iso:20022:tech:xsd:camt.053.001.02\">"));

    let parsed = parse_camt053(&xml).expect("round trip parse failed");
    assert_eq!(parsed, doc);
}

#[test]
fn round_trip_preserves_every_field() {
    let entries = vec![
        entry("EUR", "-100.00", "DBIT", "2023-05-14", "Ref12345", vec![
            tx_details("Ref67890", "EUR", "-50.00", "Payment for invoice #1234"),
        ]),
        entry("EUR", "250.75", "CRDT", "2023-05-15", "Ref12346", vec![]),
    ];
    let doc = sample_document(entries);
    let xml = generate_camt053(&doc).unwrap();
    let parsed = parse_camt053(&xml).unwrap();
    assert_eq!(parsed, doc);
}

#[test]
fn round_trip_escapes_reserved_characters() {
    let mut doc = sample_document(vec![]);
    doc.statement.group_header.message_id = "a<b>&\"c'd".to_string();
    doc.statement.statements[0].creation_date_time = "5 < 6 && 7 > 2".to_string();
    let xml = generate_camt053(&doc).unwrap();
    assert!(xml.contains("a&lt;b&gt;&amp;&quot;c&apos;d"));
    let parsed = parse_camt053(&xml).unwrap();
    assert_eq!(parsed, doc);
}

#[test]
fn optional_fields_absent_are_omitted_and_read_back_as_absent() {
    let doc = sample_document(vec![]);
    let xml = generate_camt053(&doc).unwrap();
    assert!(!xml.contains("ElctrncSeqNb"));
    assert!(!xml.contains("LglSeqNb"));
    let parsed = parse_camt053(&xml).unwrap();
    assert_eq!(parsed.statement.statements[0].electronic_sequence_number, None);
    assert_eq!(parsed.statement.statements[0].legal_sequence_number, None);
}

#[test]
fn optional_fields_present_round_trip() {
    let mut doc = sample_document(vec![]);
    doc.statement.statements[0].electronic_sequence_number = Some(7);
    doc.statement.statements[0].legal_sequence_number = Some(4294967295);
    let xml = generate_camt053(&doc).unwrap();
    assert!(xml.contains("<ElctrncSeqNb>7</ElctrncSeqNb>"));
    assert!(xml.contains("<LglSeqNb>4294967295</LglSeqNb>"));
    let parsed = parse_camt053(&xml).unwrap();
    assert_eq!(parsed, doc);
}

#[test]
fn amount_dual_mapping() {
    let doc = sample_document(vec![]);
    let xml = generate_camt053(&doc).unwrap();
    assert!(xml.contains("<Amt Ccy=\"EUR\">1000.00</Amt>"));
    let parsed = parse_camt053(&xml).unwrap();
    let bal = parsed.statement.statements[0].balance.as_ref().unwrap();
    assert_eq!(bal.amount, amount("EUR", "1000.00"));
}

#[test]
fn entry_order_is_preserved() {
    let entries = vec![
        entry("EUR", "-1.00", "DBIT", "2023-05-14", "RefA", vec![]),
        entry("EUR", "-2.00", "DBIT", "2023-05-14", "RefB", vec![]),
    ];
    let doc = sample_document(entries);
    let xml = generate_camt053(&doc).unwrap();
    let pos_a = xml.find("RefA").unwrap();
    let pos_b = xml.find("RefB").unwrap();
    assert!(pos_a < pos_b);
    let parsed = parse_camt053(&xml).unwrap();
    let stmts = &parsed.statement.statements[0];
    assert_eq!(stmts.entries[0].account_servicer_reference, "RefA");
    assert_eq!(stmts.entries[1].account_servicer_reference, "RefB");
}

#[test]
fn missing_msg_id_is_reported_with_its_path() {
    let xml = "<Document xmlns=\"urn:iso:std:iso:20022:tech:xsd:camt.053.001.02\">\
               <BkToCstmrStmt><GrpHdr><CreDtTm>2023-05-16</CreDtTm></GrpHdr>\
               <Stmt><Id>01</Id><CreDtTm>2023-05-15</CreDtTm>\
               <Acct><Id><IBAN>DE89</IBAN></Id></Acct></Stmt>\
               </BkToCstmrStmt></Document>";
    match parse_camt053(xml) {
        Err(CamtError::MissingField(path)) => assert_eq!(path, "GrpHdr/MsgId"),
        other => panic!("expected a missing-field error, got {:?}", other),
    }
}

#[test]
fn end_to_end_scenario() {
    let entries = vec![
        entry("EUR", "1000.00", "CRDT", "2024-05-15", "RefA", vec![
            tx_details("T1", "EUR", "600.00", "part one"),
            tx_details("T2", "EUR", "400.00", "part two"),
        ]),
        entry("EUR", "1500.00", "DBIT", "2024-05-15", "RefB", vec![
            tx_details("T3", "EUR", "500.00", "slice"),
            tx_details("T4", "EUR", "500.00", "slice"),
            tx_details("T5", "EUR", "500.00", "slice"),
        ]),
    ];
    let doc = Document {
        xmlns: default_xmlns(),
        statement: BankToCustomerStatement {
            group_header: GroupHeader {
                message_id: "msg123".to_string(),
                creation_date_time: "2024-05-16T16:05:00".to_string(),
            },
            statements: vec![Statement {
                id: "01".to_string(),
                electronic_sequence_number: None,
                legal_sequence_number: None,
                creation_date_time: "2024-05-16T16:05:00".to_string(),
                account: Account {
                    id: AccountId {
                        id: AccountIdKind::Iban("DE89370400440532013000".to_string()),
                    },
                },
                balance: None,
                entries,
            }],
        },
    };
    let xml = generate_camt053(&doc).unwrap();
    let parsed = parse_camt053(&xml).unwrap();
    assert_eq!(parsed, doc);
    let st = &parsed.statement.statements[0];
    assert_eq!(st.entries.len(), 2);
    assert_eq!(st.entries[0].amount, amount("EUR", "1000.00"));
    assert_eq!(st.entries[0].credit_debit_indicator, "CRDT");
    assert_eq!(st.entries[0].entry_details.transaction_details.len(), 2);
    assert_eq!(
        st.entries[0].entry_details.transaction_details[0].amount_details.transaction_amount,
        amount("EUR", "600.00")
    );
    assert_eq!(
        st.entries[0].entry_details.transaction_details[1].amount_details.transaction_amount,
        amount("EUR", "400.00")
    );
    assert_eq!(st.entries[1].amount, amount("EUR", "1500.00"));
    assert_eq!(st.entries[1].credit_debit_indicator, "DBIT");
    assert_eq!(st.entries[1].entry_details.transaction_details.len(), 3);
    for td in &st.entries[1].entry_details.transaction_details {
        assert_eq!(td.amount_details.transaction_amount, amount("EUR", "500.00"));
    }
}

#[test]
fn other_account_identifier_round_trips() {
    let mut doc = sample_document(vec![]);
    doc.statement.statements[0].account.id.id = AccountIdKind::Other("ACCT-77".to_string());
    let xml = generate_camt053(&doc).unwrap();
    assert!(xml.contains("<Othr>ACCT-77</Othr>"));
    let parsed = parse_camt053(&xml).unwrap();
    assert_eq!(parsed, doc);
}

#[test]
fn empty_envelope_is_an_encoding_error() {
    let doc = Document {
        xmlns: default_xmlns(),
        statement: BankToCustomerStatement {
            group_header: GroupHeader {
                message_id: "m".to_string(),
                creation_date_time: "t".to_string(),
            },
            statements: vec![],
        },
    };
    match generate_camt053(&doc) {
        Err(CamtError::Encoding(what)) => assert_eq!(what, "BkToCstmrStmt/Stmt"),
        other => panic!("expected an encoding error, got {:?}", other),
    }
}

#[test]
fn wrong_root_is_unsupported_structure() {
    match parse_camt053("<Invoice><Nr>1</Nr></Invoice>") {
        Err(CamtError::UnsupportedStructure(name)) => assert_eq!(name, "Invoice"),
        other => panic!("expected an unsupported-structure error, got {:?}", other),
    }
}

#[test]
fn non_numeric_sequence_number_is_malformed() {
    let doc_xml = "<Document><BkToCstmrStmt><GrpHdr><MsgId>m</MsgId><CreDtTm>t</CreDtTm></GrpHdr>\
                   <Stmt><Id>01</Id><ElctrncSeqNb>abc</ElctrncSeqNb><CreDtTm>t</CreDtTm>\
                   <Acct><Id><IBAN>DE</IBAN></Id></Acct></Stmt></BkToCstmrStmt></Document>";
    match parse_camt053(doc_xml) {
        Err(CamtError::MalformedValue { element, text }) => {
            assert_eq!(element, "Stmt/ElctrncSeqNb");
            assert_eq!(text, "abc");
        },
        other => panic!("expected a malformed-value error, got {:?}", other),
    }
}

#[test]
fn missing_currency_attribute_is_reported() {
    let doc_xml = "<Document><BkToCstmrStmt><GrpHdr><MsgId>m</MsgId><CreDtTm>t</CreDtTm></GrpHdr>\
                   <Stmt><Id>01</Id><CreDtTm>t</CreDtTm>\
                   <Acct><Id><IBAN>DE</IBAN></Id></Acct>\
                   <Bal><Tp><CdOrPrtry><Cd>OPBD</Cd></CdOrPrtry></Tp><Amt>1.00</Amt>\
                   <CdtDbtInd>CRDT</CdtDbtInd><Dt><Dt>2023-05-14</Dt></Dt></Bal>\
                   </Stmt></BkToCstmrStmt></Document>";
    match parse_camt053(doc_xml) {
        Err(CamtError::MissingField(path)) => assert_eq!(path, "Bal/Amt"),
        other => panic!("expected a missing-field error, got {:?}", other),
    }
}

#[test]
fn missing_xmlns_defaults_and_unknown_elements_are_ignored() {
    let doc_xml = "<Document><BkToCstmrStmt><GrpHdr><MsgId>m</MsgId><Extra><Deep>x</Deep></Extra>\
                   <CreDtTm>t</CreDtTm></GrpHdr><Stmt><Id>01</Id><CreDtTm>t</CreDtTm>\
                   <Acct><Id><IBAN>DE</IBAN></Id></Acct><Novel>ignored</Novel></Stmt>\
                   </BkToCstmrStmt></Document>";
    let parsed = parse_camt053(doc_xml).unwrap();
    assert_eq!(parsed.xmlns, default_xmlns());
    assert_eq!(parsed.statement.group_header.message_id, "m");
    assert_eq!(parsed.statement.statements[0].id, "01");
    assert_eq!(parsed.statement.statements[0].balance, None);
    assert_eq!(parsed.statement.statements[0].entries.len(), 0);
}

#[test]
fn whitespace_between_elements_is_tolerated() {
    let doc_xml = "<Document>\n  <BkToCstmrStmt>\n    <GrpHdr>\n      <MsgId>m</MsgId>\n      \
                   <CreDtTm>t</CreDtTm>\n    </GrpHdr>\n    <Stmt>\n      <Id>01</Id>\n      \
                   <CreDtTm>t</CreDtTm>\n      <Acct><Id><IBAN>DE</IBAN></Id></Acct>\n    \
                   </Stmt>\n  </BkToCstmrStmt>\n</Document>\n";
    let parsed = parse_camt053(doc_xml).unwrap();
    assert_eq!(parsed.statement.statements.len(), 1);
}

#[test]
fn decimal_values_are_kept_verbatim() {
    let mut doc = sample_document(vec![]);
    if let Some(bal) = &mut doc.statement.statements[0].balance {
        bal.amount = amount("JPY", "0.10");
    }
    let xml = generate_camt053(&doc).unwrap();
    assert!(xml.contains("<Amt Ccy=\"JPY\">0.10</Amt>"));
    let parsed = parse_camt053(&xml).unwrap();
    let bal = parsed.statement.statements[0].balance.as_ref().unwrap();
    assert_eq!(bal.amount.value, "0.10");
}
