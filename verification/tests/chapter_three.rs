use workbook::basics::{build_vector, new_pixel_buffer};

#[test]
fn test_build_vector() {
    let v1 = build_vector();
    let v2 = build_vector();
    assert_eq!(v1, v2);
}

#[test]
fn test_checked_op() {
    // The sum of 10 and 20 can be represented as an u8.
    assert_eq!(10_u8.checked_add(20), Some(30));

    // Unfortunately, the sum of 100 and 200 cannot.
    assert_eq!(100_u8.checked_add(200), None);

    // Oddly, signed division can overflow too, in one particular case.
    assert_eq!((-128_i8).checked_div(-1), None);
}

#[test]
fn test_wrapping_op() {
    // The first product can be represented as an u16;
    // the second cannot, so we get 250000 modulo 2¹⁶.
    assert_eq!(100_u16.wrapping_mul(200), 20000);
    assert_eq!(500_u16.wrapping_mul(500), 53392);

    // Operations on signed types may wrap to negative values.
    assert_eq!(500_i16.wrapping_mul(500), -12144);

    // In bitwise shift operations, the shift distance
    // is wrapped to fall within the size of the value.
    // So a shift of 17 bits in a 16-bit type is a shift of 1.
    assert_eq!(5_i16.wrapping_shl(17), 10);
}

#[test]
fn test_saturating_op() {
    assert_eq!(32760_i16.saturating_add(10), 32767);
    assert_eq!((-32760_i16).saturating_sub(10), -32768);
}

#[test]
fn test_overflowing_op() {
    assert_eq!(255_u8.overflowing_sub(2), (253, false));
    assert_eq!(255_u8.overflowing_add(2), (1, true));

    // A shift of 17 bits is too large for `u16`, and 17 modulo 16 is 1.
    assert_eq!(5_u16.overflowing_shl(17), (10, true));
}

#[test]
fn test_floating_point_types() {
    assert!((-1. / f32::INFINITY).is_sign_negative());
    assert_eq!(f32::MIN, -f32::MAX);
    assert_eq!(5f32.sqrt() * 5f32.sqrt(), 5.); // exactly 5.0, per IEEE
    assert_eq!((-1.01f64).floor(), -2.0);
    println!("{}", (2.0_f64).sqrt()); // with suffix
    println!("{}", f64::sqrt(2.0));
}

#[test]
fn test_bool_type() {
    assert_eq!(false as i32, 0);
    assert_eq!(true as i32, 1);
    // if x != 0 { ... } not equals if x { ... }
}

#[test]
fn test_char_type() {
    assert_eq!('*' as i32, 42);
    println!("{}", 0xca0);
    println!("{}", -0x60); // U+0CA0 truncated to eight bits,signed

    assert_eq!('*'.is_alphabetic(), false);
    assert_eq!('β'.is_alphabetic(), true);
    assert_eq!('8'.to_digit(10), Some(8));
    assert_eq!(std::char::from_digit(2, 10), Some('2'));
}

#[test]
fn test_tuple_type() {
    let text = "I see the eigenvalue in thine eye";
    let (head, tail) = text.split_at(21);
    assert_eq!(head, "I see the eigenvalue ");
    assert_eq!(tail, "in thine eye");

    let unit = ();
    println!("{:?}", unit);
}

#[test]
fn test_reference_type() {
    let x = 0;
    let y = &x; // reference
    let z = &x;
    assert_eq!(*y, *z);

    let mut r = 1;
    let s = &mut r;
    // let t = &mut r; // cannot borrow second time.
    assert_eq!(*s, 1);
}

#[test]
fn test_boxes_type() {
    let t = (12, "eggs");
    let b = Box::new(t);
    println!("{:?}", b);
}

#[test]
fn test_raw_pointer() {}

#[test]
fn test_arrays() {
    let lazy_caterer: [u32; 6] = [1, 2, 4, 7, 11, 16];
    let taxonomy = ["Animalia", "Arthropoda", "Insecta"];
    assert_eq!(lazy_caterer[3], 7);
    assert_eq!(taxonomy.len(), 3);

    let mut sieve = [true; 10000]; // [V; N] form
    for i in 2..100 {
        if sieve[i] {
            let mut j = i * i;
            while j < 10000 {
                sieve[j] = false;
                j += i;
            }
        }
    }
    assert!(sieve[211]);
    assert!(!sieve[9876]);

    let kb = [0u8; 1024];
    assert_eq!(kb.len(), 1024);

    let mut chaos = [3, 5, 4, 1, 2];
    chaos.sort();
    assert_eq!(chaos, [1, 2, 3, 4, 5]);
}

#[test]
fn test_vector_vec_macro() {
    let mut primes = vec![2, 3, 5, 7];
    assert_eq!(primes.iter().product::<i32>(), 210);

    primes.push(11);
    primes.push(13);
    assert_eq!(primes.iter().product::<i32>(), 30030);
}

#[test]
fn test_new_pixel_buffer() {
    let buffer = new_pixel_buffer(100, 100);
    assert_eq!(buffer.len(), 10000);
}

#[test]
fn test_vector_vec_new() {
    let mut pal = Vec::new();
    pal.push("step");
    pal.push("on");
    pal.push("no");
    pal.push("pets");
    assert_eq!(pal, vec!["step", "on", "no", "pets"]);
}

#[test]
fn test_vector_create_from_iterator() {
    let v: Vec<i32> = (0..5).collect();
    assert_eq!(v, [0, 1, 2, 3, 4]);
}

#[test]
fn test_vector_slice_method() {
    // A palindrome!
    let mut palindrome = vec!["a man", "a plan", "a canal", "panama"];
    palindrome.reverse();
    // Reasonable yet disappointing:
    assert_eq!(palindrome, vec!["panama", "a canal", "a plan", "a man"]);
}

#[test]
fn test_vector_len_and_capacity() {
    let mut v = Vec::with_capacity(2);
    assert_eq!(v.len(), 0);
    assert_eq!(v.capacity(), 2);

    v.push(1);
    v.push(2);
    assert_eq!(v.len(), 2);
    assert_eq!(v.capacity(), 2);

    v.push(3);
    assert_eq!(v.len(), 3);
    // Typically prints "capacity is now 4":
    println!("capacity is now {}", v.capacity());
}

#[test]
fn test_vector_insert_and_remove_element() {
    let mut v = vec![10, 20, 30, 40, 50];
    // Make the element at index 3 be 35.
    v.insert(3, 35);
    assert_eq!(v, [10, 20, 30, 35, 40, 50]);
    // Remove the element at index 1.
    v.remove(1);
    assert_eq!(v, [10, 30, 35, 40, 50]);
}

#[test]
fn test_vector_pop() {
    let mut v = vec!["Snow Puff", "Glass Gem"];
    assert_eq!(v.pop(), Some("Glass Gem"));
    assert_eq!(v.pop(), Some("Snow Puff"));
    assert_eq!(v.pop(), None);
}

#[test]
fn test_slices() {
    let v: Vec<f64> = vec![0.0, 0.707, 1.0, 0.707];
    let a: [f64; 4] = [0.0, -0.707, -1.0, -0.707];

    let sv: &[f64] = &v;
    let sa: &[f64] = &a;

    println!("{:?}", sv);
    println!("{:?}", sa);
}

#[test]
fn test_string_literals() {
    let speech = "\"Ouch!\" said the well.\n";
    println!("{}", speech);

    println!(
        "In the room the women come and go,
        Singing of Mount Abora"
    );

    println!(
        "It was a bright, cold day in April, and \
        there were four of us—\
        more or less."
    );
}

#[test]
fn test_byte_strings() {
    let method = b"GET";
    assert_eq!(method, &[b'G', b'E', b'T']);
}

#[test]
fn test_strings_in_memory() {
    let noodles = "noodles".to_string();
    let oodles = &noodles[1..];

    println!("{}", noodles);
    println!("{}", oodles);
}

#[test]
fn test_to_string() {
    let error_message = "too many pets".to_string();
    println!("{}", error_message);
}

#[test]
fn test_format_macro() {
    assert_eq!(format!("{}°{:02}′{:02}″N", 24, 5, 23), "24°05′23″N".to_string());
}

#[test]
fn test_concat_and_join() {
    let bits = vec!["veni", "vidi", "vici"];
    assert_eq!(bits.concat(), "venividivici");
    assert_eq!(bits.join(", "), "veni, vidi, vici");
}

#[test]
fn test_other_string_like_types() {}

#[test]
fn test_beyond_the_basics() {}
