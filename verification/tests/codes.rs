use slink::short_link::{code_from_indices, generate_short_link, ShortLink};

const ALPHABET: &str = "ABCDEFGHIJKLMNOPQRSTUVWXYZabcdefghijklmnopqrstuvwxyz0123456789_-.*!()$~";

#[test]
fn test_new() {
    let random_string = generate_short_link();
    let slink = ShortLink::new(random_string, "https://www.google.com".to_string());
    assert_eq!(slink.slink.len(), 6);
    assert_eq!(slink.dest, "https://www.google.com");
}

#[test]
fn generated_codes_have_length_six_over_the_alphabet() {
    for _ in 0..500 {
        let code = generate_short_link();
        assert_eq!(code.len(), 6);
        for c in code.chars() {
            assert!(ALPHABET.contains(c));
        }
    }
}

#[test]
fn code_from_indices_spells_the_alphabet() {
    let (text, key) = code_from_indices(&vec![0usize, 25, 26, 51, 52, 61]);
    assert_eq!(text, "AZaz09");
    let mut expect: u64 = 0;
    for b in "AZaz09".bytes() {
        expect = expect * 256 + b as u64;
    }
    assert_eq!(key, expect);

    let (symbols, _) = code_from_indices(&vec![62usize, 63, 64, 65, 66, 70]);
    assert_eq!(symbols, "_-.*!~");
    let (more, _) = code_from_indices(&vec![67usize, 68, 69, 0, 0, 0]);
    assert_eq!(more, "()$AAA");
}

#[test]
fn distinct_indices_give_distinct_keys() {
    let (_, k1) = code_from_indices(&vec![0usize, 0, 0, 0, 0, 0]);
    let (_, k2) = code_from_indices(&vec![0usize, 0, 0, 0, 0, 1]);
    let (_, k3) = code_from_indices(&vec![1usize, 0, 0, 0, 0, 0]);
    assert_ne!(k1, k2);
    assert_ne!(k1, k3);
    assert_ne!(k2, k3);
}
