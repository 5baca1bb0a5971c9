use agave_events::transaction::message_frame::MessageFrame;
use agave_events::transaction::message_view::MessageView;
use agave_events::transaction::result::{TransactionVersion, TransactionViewError};
use agave_events::transaction::transaction_frame::TransactionFrame;

use solana_message::compiled_instruction::CompiledInstruction;
use solana_message::{v0, v1, AddressLookupTableAccount, Message, MessageHeader, VersionedMessage};
use solana_pubkey::Pubkey;
use solana_signature::Signature;
use solana_system_interface::instruction as system_instruction;
use solana_transaction::versioned::VersionedTransaction;

/// Sign `message` with a placeholder signature per required signer.
fn sign(message: VersionedMessage) -> VersionedTransaction {
    VersionedTransaction {
        signatures: vec![Signature::default(); usize::from(message.header().num_required_signatures)],
        message,
    }
}

fn expected_version(message: &VersionedMessage) -> TransactionVersion {
    match message {
        VersionedMessage::Legacy(_) => TransactionVersion::Legacy,
        VersionedMessage::V0(_) => TransactionVersion::V0,
        VersionedMessage::V1(_) => TransactionVersion::V1,
    }
}

fn verify_message_view(message: VersionedMessage) {
    let message_bytes = wincode::serialize(&message).unwrap();
    let view = MessageView::try_new_unsanitized(message_bytes.as_slice()).unwrap();

    assert_eq!(view.data(), message_bytes);
    assert_eq!(view.version(), expected_version(&message));
    assert_eq!(view.num_required_signatures(), message.header().num_required_signatures);
    assert_eq!(
        view.num_readonly_signed_static_accounts(),
        message.header().num_readonly_signed_accounts
    );
    assert_eq!(
        view.num_readonly_unsigned_static_accounts(),
        message.header().num_readonly_unsigned_accounts
    );
    let expected_keys: Vec<u8> = message.static_account_keys().iter().flat_map(|k| k.to_bytes()).collect();
    assert_eq!(view.static_account_keys(), &expected_keys[..]);
    assert_eq!(view.recent_blockhash(), message.recent_blockhash().as_ref());

    let instructions = view.instructions_iter();
    assert_eq!(instructions.len(), message.instructions().len());
    for (ix, expected) in instructions.iter().zip(message.instructions()) {
        assert_eq!(ix.program_id_index, expected.program_id_index);
        assert_eq!(ix.accounts, &expected.accounts[..]);
        assert_eq!(ix.data, &expected.data[..]);
    }

    let lookups = view.address_table_lookup_iter();
    let expected_lookups = message.address_table_lookups().unwrap_or_default();
    assert_eq!(lookups.len(), expected_lookups.len());
    for (lookup, expected) in lookups.iter().zip(expected_lookups) {
        assert_eq!(lookup.account_key, expected.account_key.as_ref());
        assert_eq!(lookup.writable_indexes, &expected.writable_indexes[..]);
        assert_eq!(lookup.readonly_indexes, &expected.readonly_indexes[..]);
    }

    assert_eq!(view.transaction_config().is_some(), matches!(message, VersionedMessage::V1(_)));

    // The message embedded in the signed transaction is the same message.
    let transaction = sign(message);
    let transaction_bytes = wincode::serialize(&transaction).unwrap();
    let frame = TransactionFrame::try_new(&transaction_bytes).unwrap();
    let (start, end) = frame.message.message_range();
    assert_eq!(&transaction_bytes[start as usize..end as usize], &message_bytes[..]);
}

#[test]
fn test_legacy_message() {
    let payer = Pubkey::new_unique();
    verify_message_view(VersionedMessage::Legacy(Message::new(
        &[
            system_instruction::transfer(&payer, &Pubkey::new_unique(), 1),
            system_instruction::transfer(&payer, &Pubkey::new_unique(), 1),
        ],
        Some(&payer),
    )));
}

#[test]
fn test_v0_message() {
    let payer = Pubkey::new_unique();
    let to = Pubkey::new_unique();
    verify_message_view(VersionedMessage::V0(
        v0::Message::try_compile(
            &payer,
            &[system_instruction::transfer(&payer, &to, 1)],
            &[AddressLookupTableAccount {
                key: Pubkey::new_unique(),
                addresses: vec![to],
            }],
            solana_hash::Hash::new_from_array([7; 32]),
        )
        .unwrap(),
    ));
}

#[test]
fn test_v1_message() {
    verify_message_view(VersionedMessage::V1(v1::Message {
        header: MessageHeader {
            num_required_signatures: 1,
            num_readonly_signed_accounts: 0,
            num_readonly_unsigned_accounts: 1,
        },
        config: v1::TransactionConfig {
            priority_fee: Some(111),
            compute_unit_limit: Some(222),
            loaded_accounts_data_size_limit: Some(333),
            heap_size: Some(32 * 1024),
        },
        lifetime_specifier: solana_hash::Hash::new_from_array([7; 32]),
        account_keys: vec![Pubkey::new_unique(), Pubkey::new_unique()],
        instructions: vec![CompiledInstruction {
            program_id_index: 1,
            accounts: vec![0],
            data: vec![1, 2, 3, 4],
        }],
    }));
}

#[test]
fn test_try_new_unsanitized_rejects_invalid_bytes() {
    let mut trailing_bytes = wincode::serialize(&VersionedMessage::Legacy(Message::new(
        &[],
        Some(&Pubkey::new_unique()),
    )))
    .unwrap();
    trailing_bytes.push(0);
    let unknown_version = [solana_message::MESSAGE_VERSION_PREFIX | 2, 1, 0, 0];

    for bytes in [&[][..], &unknown_version[..], &trailing_bytes[..]] {
        assert_eq!(
            MessageView::try_new_unsanitized(bytes).err().unwrap(),
            TransactionViewError::ParseError
        );
    }
}

#[test]
fn test_try_new_as_v1_rejects_legacy_message() {
    // A legacy message with one required signature starts with 0x01,
    // which differs from the v1 version byte only in the high bit.
    let bytes = wincode::serialize(&VersionedMessage::Legacy(Message::new(
        &[],
        Some(&Pubkey::new_unique()),
    )))
    .unwrap();
    assert_eq!(bytes[0], 1);

    assert!(matches!(
        MessageFrame::try_new_as_v1(&bytes),
        Err(TransactionViewError::ParseError),
    ));
}

#[test]
fn message_frame_parses_v1_configuration() {
    let message = VersionedMessage::V1(v1::Message {
        header: MessageHeader {
            num_required_signatures: 1,
            num_readonly_signed_accounts: 0,
            num_readonly_unsigned_accounts: 0,
        },
        config: v1::TransactionConfig::empty().with_compute_unit_limit(5),
        lifetime_specifier: solana_hash::Hash::new_from_array([3; 32]),
        account_keys: vec![Pubkey::new_unique()],
        instructions: vec![],
    });
    let bytes = wincode::serialize(&message).unwrap();
    let frame = MessageFrame::try_new(&bytes).unwrap();
    let config = frame.transaction_config_frame();
    assert!(config.is_present());
    // Only the compute unit limit bit is set, and one 4-byte value follows the key.
    assert_eq!(config.mask, 4);
    assert_eq!(config.values_offset as usize, 42 + 32);
    assert_eq!(frame.end_offset as usize, bytes.len());
    assert_eq!(frame.end_offset as usize, 42 + 32 + 4);
}

#[test]
fn v1_message_with_mixed_priority_fee_bits_is_refused() {
    let message = VersionedMessage::V1(v1::Message {
        header: MessageHeader {
            num_required_signatures: 1,
            num_readonly_signed_accounts: 0,
            num_readonly_unsigned_accounts: 0,
        },
        config: v1::TransactionConfig::empty(),
        lifetime_specifier: solana_hash::Hash::default(),
        account_keys: vec![Pubkey::new_unique()],
        instructions: vec![],
    });
    let mut bytes = wincode::serialize(&message).unwrap();
    // Set only one of the two priority-fee bits of the mask.
    bytes[4] = 1;
    assert_eq!(MessageFrame::try_new(&bytes).err(), Some(TransactionViewError::ParseError));
}

#[test]
fn legacy_transfer_view_counts() {
    let payer = Pubkey::new_unique();
    let message = VersionedMessage::Legacy(Message::new(
        &[system_instruction::transfer(&payer, &Pubkey::new_unique(), 1)],
        Some(&payer),
    ));
    let bytes = wincode::serialize(&message).unwrap();
    let view = MessageView::try_new_unsanitized(bytes.as_slice()).unwrap();
    // three static keys: payer (writable signer), recipient (writable), system program (readonly)
    assert_eq!(view.num_static_account_keys(), 3);
    assert_eq!(view.num_readonly_unsigned_static_accounts(), 1);
    assert_eq!(view.total_writable_lookup_accounts(), 0);
}

#[test]
fn message_inside_transaction_frames_like_message_alone() {
    let payer = Pubkey::new_unique();
    let to = Pubkey::new_unique();
    let message = VersionedMessage::V0(
        v0::Message::try_compile(
            &payer,
            &[system_instruction::transfer(&payer, &to, 1)],
            &[AddressLookupTableAccount {
                key: Pubkey::new_unique(),
                addresses: vec![to],
            }],
            solana_hash::Hash::new_from_array([7; 32]),
        )
        .unwrap(),
    );
    let message_bytes = wincode::serialize(&message).unwrap();
    let transaction_bytes = wincode::serialize(&sign(message)).unwrap();
    let inside = TransactionFrame::try_new(&transaction_bytes).unwrap().message;
    let alone = MessageFrame::try_new(&message_bytes).unwrap();
    let shift = inside.message_header.offset;
    assert_eq!(shift as usize, 1 + 64);
    assert_eq!(alone.message_header.offset, 0);
    assert_eq!(inside.static_account_keys.offset, alone.static_account_keys.offset + shift);
    assert_eq!(inside.recent_blockhash_offset, alone.recent_blockhash_offset + shift);
    assert_eq!(inside.instructions.offset, alone.instructions.offset + shift);
    assert_eq!(inside.address_table_lookup.offset, alone.address_table_lookup.offset + shift);
    assert_eq!(inside.end_offset, alone.end_offset + shift);
    assert_eq!(inside.instructions.num_instructions, alone.instructions.num_instructions);
    assert_eq!(
        inside.address_table_lookup.total_writable_lookup_accounts,
        alone.address_table_lookup.total_writable_lookup_accounts
    );
}

#[test]
fn any_message_with_a_trailing_byte_is_refused() {
    let payer = Pubkey::new_unique();
    let to = Pubkey::new_unique();
    let messages = [
        VersionedMessage::Legacy(Message::new(&[system_instruction::transfer(&payer, &to, 1)], Some(&payer))),
        VersionedMessage::V0(
            v0::Message::try_compile(
                &payer,
                &[system_instruction::transfer(&payer, &to, 1)],
                &[AddressLookupTableAccount { key: Pubkey::new_unique(), addresses: vec![to] }],
                solana_hash::Hash::new_from_array([7; 32]),
            )
            .unwrap(),
        ),
    ];
    for message in messages {
        let mut bytes = wincode::serialize(&message).unwrap();
        let frame = MessageFrame::try_new(&bytes).unwrap();
        assert_eq!(frame.message_range(), (0, bytes.len() as u16));
        bytes.push(0);
        assert_eq!(MessageFrame::try_new(&bytes).err(), Some(TransactionViewError::ParseError));
        assert_eq!(MessageView::try_new_unsanitized(&bytes[..]).err(), Some(TransactionViewError::ParseError));
    }
}
