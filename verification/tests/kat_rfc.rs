//! Published test vectors: RFC 7748 (X25519 and its small-order points),
//! RFC 8032 section 7.1 (Ed25519) and RFC 9106 (Argon2id), and Argon2id key
//! derivation against the reference crate at other costs.

use argon2::{Algorithm, Argon2, AssociatedData, Params, ParamsBuilder, Version};
use quietwire::crypto::ed25519::SigningKey;
use quietwire::crypto::hierarchy::{Dek, Kek, Purpose};
use quietwire::crypto::password::{derive_kek, KdfParams, Salt, SALT_LEN};
use quietwire::crypto::x25519::{PrivateKey, PublicKey};
use quietwire::crypto::{Error, SecretKey};
use quietwire::fixtures::{hex, hex_array};

const HIGH_BIT: u8 = 0x80;

fn private_key(encoded: &str) -> PrivateKey {
    PrivateKey::from(SecretKey::from_slice(&hex(encoded)).expect("32-byte scalar"))
}

#[test]
fn qw_u_cry_001_diffie_hellman_matches_the_rfc_7748_function_vectors() {
    let vectors = [
        (
            "a546e36bf0527c9d3b16154b82465edd62144c0ac1fc5a18506a2244ba449ac4",
            "e6db6867583030db3594c1a424b15f7c726624ec26b3353b10a903a6d0ab1c4c",
            "c3da55379de9c6908e94ea4df28d084f32eccf03491c71f754b4075577a28552",
        ),
        (
            "4b66e9d4d1b4673c5ad22691957d6af5c11b6421e0ea01d42ca4169e7918ba0d",
            "e5210f12786811d3f4b7959d0538ae2c31dbe7106fc03c3efc4cd549c715a493",
            "95cbde9476e8907d7aade45cb4b873f88b595a68799fa152e6f8f7647aac7957",
        ),
    ];

    for (scalar, u, output) in vectors {
        let shared = private_key(scalar)
            .diffie_hellman(&PublicKey::from_bytes(hex_array(u)))
            .unwrap();

        assert_eq!(shared.expose_secret().to_vec(), hex(output));
    }
}

#[test]
fn qw_u_cry_002_every_small_order_point_is_rejected_with_and_without_the_high_bit() {
    let points = [
        "0000000000000000000000000000000000000000000000000000000000000000",
        "0100000000000000000000000000000000000000000000000000000000000000",
        "e0eb7a7c3b41b8ae1656e3faf19fc46ada098deb9c32b1fd866205165f49b800",
        "5f9c95bca3508c24b1d0b1559c83ef5b04445cc4581c8e86d8224eddd09f1157",
        "ecffffffffffffffffffffffffffffffffffffffffffffffffffffffffffff7f",
        "edffffffffffffffffffffffffffffffffffffffffffffffffffffffffffff7f",
        "eeffffffffffffffffffffffffffffffffffffffffffffffffffffffffffff7f",
    ];
    let alice = PrivateKey::generate().unwrap();

    for point in points {
        let u: [u8; 32] = hex_array(point);
        let mut high_bit_set = u;
        high_bit_set[31] |= HIGH_BIT;

        for bytes in [u, high_bit_set] {
            assert!(
                matches!(
                    alice.diffie_hellman(&PublicKey::from_bytes(bytes)),
                    Err(Error::InvalidPublicKey)
                ),
                "{point}"
            );
        }
    }
}

#[test]
fn qw_u_cry_003_signing_and_verifying_match_rfc_8032_section_7_1() {
    let vectors = [
        (
            "TEST 1",
            "9d61b19deffd5a60ba844af492ec2cc44449c5697b326919703bac031cae7f60",
            "d75a980182b10ab7d54bfed3c964073a0ee172f3daa62325af021a68f707511a",
            "",
            "e5564300c360ac729086e2cc806e828a84877f1eb8e5d974d873e065224901555fb8821590a33bacc61e39701cf9b46bd25bf5f0595bbe24655141438e7a100b",
        ),
        (
            "TEST 2",
            "4ccd089b28ff96da9db6c346ec114e0f5b8a319f35aba624da8cf6ed4fb8a6fb",
            "3d4017c3e843895a92b70aa74d1b7ebc9c982ccf2ec4968cc0cd55f12af4660c",
            "72",
            "92a009a9f0d4cab8720e820b5f642540a2b27b5416503f8fb3762223ebdb69da085ac1e43e15996e458f3613d0f11d8c387b2eaeb4302aeeb00d291612bb0c00",
        ),
        (
            "TEST 3",
            "c5aa8df43f9f837bedb7442f31dcb7b166d38535076f094b85ce3a2e0b4458f7",
            "fc51cd8e6218a1a38da47ed00230f0580816ed13ba3303ac5deb911548908025",
            "af82",
            "6291d657deec24024827e69c3abe01a30ce548a284743a445e3680d7db5ac3ac18ff9b538d16f290ae67f760984dc6594a7c15e9716ed28dc027beceea1ec40a",
        ),
        (
            "TEST SHA(abc)",
            "833fe62409237b9d62ec77587520911e9a759cec1d19755b7da901b96dca3d42",
            "ec172b93ad5e563bf4932c70e1245034c35467ef2efd4d64ebf819683467e2bf",
            "ddaf35a193617abacc417349ae20413112e6fa4e89a97ea20a9eeee64b55d39a2192992a274fc1a836ba3c23a3feebbd454d4423643ce80e2a9ac94fa54ca49f",
            "dc2a4459e7369633a52b1bf277839a00201009a3efbf3ecb69bea2186c26b58909351fc9ac90b3ecfdfbc7c66431e0303dca179c138ac17ad9bef1177331a704",
        ),
    ];

    for (name, secret_key, public_key, message, signature) in vectors {
        let key = SigningKey::from(SecretKey::from_slice(&hex(secret_key)).unwrap());
        let message = hex(message);

        let signed = key.sign(&message);

        assert_eq!(key.verifying_key().to_bytes().to_vec(), hex(public_key), "{name}");
        assert_eq!(signed.as_bytes().to_vec(), hex(signature), "{name}");
        assert!(key.verifying_key().verify(&message, &signed).is_ok(), "{name}");
    }
}

#[test]
fn qw_u_cry_008_argon2id_matches_rfc_9106_test_vector() {
    let associated_data = [0x04u8; 12];
    let params = ParamsBuilder::new()
        .m_cost(32)
        .t_cost(3)
        .p_cost(4)
        .data(AssociatedData::new(&associated_data).expect("12 bytes fit"))
        .output_len(32)
        .build()
        .expect("RFC parameters are valid");
    let secret = [0x03u8; 8];
    let argon2 = Argon2::new_with_secret(&secret, Algorithm::Argon2id, Version::V0x13, params)
        .expect("8-byte secret fits");

    let mut tag = [0u8; 32];
    argon2
        .hash_password_into(&[0x01u8; 32], &[0x02u8; 16], &mut tag)
        .expect("hashing succeeds");

    assert_eq!(
        tag,
        hex_array::<32>("0d640df58d78766c08c037a34a8b53c9d01ef0452d75b65eb52520e96b01e659")
    );
}

fn reference_kek(password: &[u8], salt: &[u8; SALT_LEN], costs: (u32, u32, u32)) -> Kek {
    let params = Params::new(costs.0, costs.1, costs.2, Some(32)).unwrap();
    let mut key = [0u8; 32];
    Argon2::new(Algorithm::Argon2id, Version::V0x13, params)
        .hash_password_into(password, salt, &mut key)
        .unwrap();
    Kek::from(SecretKey::from_slice(&key).unwrap())
}

#[test]
fn argon2id_matches_reference_implementation_vectors() {
    let cases: [(&[u8], [u8; SALT_LEN], (u32, u32, u32)); 3] = [
        (b"password", [0x11; SALT_LEN], (64, 1, 1)),
        (b"correct horse battery staple", [0x5a; SALT_LEN], (256, 2, 2)),
        (b"", [0x00; SALT_LEN], (32, 3, 4)),
    ];
    let dek = Dek::from(SecretKey::from_slice(&[0x77; 32]).unwrap());

    for (password, salt, costs) in cases {
        let params = KdfParams::custom(costs.0, costs.1, costs.2);
        let kek = derive_kek(password, &Salt::from_bytes(salt), &params).unwrap();

        let wrapped = dek.wrap_with(&kek).unwrap();
        let opened = wrapped
            .unwrap_with(&reference_kek(password, &salt, costs))
            .expect("the same KEK opens the wrapped DEK");

        assert!(
            opened.subkey(Purpose::Db).unwrap() == dek.subkey(Purpose::Db).unwrap(),
            "{costs:?}"
        );
    }
}

#[test]
fn derive_kek_rejects_memory_below_eight_kib_per_lane() {
    let salt = Salt::from_bytes([0; SALT_LEN]);

    let result = derive_kek(b"pw", &salt, &KdfParams::custom(8, 1, 2));

    assert!(matches!(result, Err(Error::Kdf)));
}

#[test]
fn custom_costs_of_a_profile_are_that_profile() {
    assert_eq!(KdfParams::custom(262_144, 4, 2), KdfParams::MOBILE);
    assert_eq!(KdfParams::custom(1_048_576, 4, 2), KdfParams::DESKTOP);
    let other = KdfParams::custom(64, 1, 1);
    assert_eq!(
        (other.memory_kib(), other.iterations(), other.parallelism()),
        (64, 1, 1)
    );
}
