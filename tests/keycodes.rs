use onekibu::Symbol::{Key, Modifier};
use onekibu::{Symbol, MAP};

fn check(xs: &[u8], s: usize, q: Symbol) {
    let mut r: usize = 0;
    for &x in xs {
        match x {
            b'.' => r = 2 * r + 1,
            b'-' => r = 2 * r + 2,
            _ => unreachable!(),
        }
    }
    assert_eq!(r, s);
    assert_eq!(Symbol::from(MAP[r]), q);
}

#[test]
fn keycodes() {
    check(b"", 0, Key(0));

    // Official codes
    check(b".-", 4, Key(4)); // A
    check(b"-...", 23, Key(5)); // B
    check(b"-.-.", 25, Key(6)); // C
    check(b"-..", 11, Key(7)); // D
    check(b".", 1, Key(8)); // E
    check(b"..-.", 17, Key(9)); // F
    check(b"--.", 13, Key(10)); // G
    check(b"....", 15, Key(11)); // H
    check(b"..", 3, Key(12)); // I
    check(b".---", 22, Key(13)); // J
    check(b"-.-", 12, Key(14)); // K
    check(b".-..", 19, Key(15)); // L
    check(b"--", 6, Key(16)); // M
    check(b"-.", 5, Key(17)); // N
    check(b"---", 14, Key(18)); // O
    check(b".--.", 21, Key(19)); // P
    check(b"--.-", 28, Key(20)); // Q
    check(b".-.", 9, Key(21)); // R
    check(b"...", 7, Key(22)); // S
    check(b"-", 2, Key(23)); // T
    check(b"..-", 8, Key(24)); // U
    check(b"...-", 16, Key(25)); // V
    check(b".--", 10, Key(26)); // W
    check(b"-..-", 24, Key(27)); // X
    check(b"-.--", 26, Key(28)); // Y
    check(b"--..", 27, Key(29)); // Z
    check(b".----", 46, Key(30)); // 1
    check(b"..---", 38, Key(31)); // 2
    check(b"...--", 34, Key(32)); // 3
    check(b"....-", 32, Key(33)); // 4
    check(b".....", 31, Key(34)); // 5
    check(b"-....", 47, Key(35)); // 6
    check(b"--...", 55, Key(36)); // 7
    check(b"---..", 59, Key(37)); // 8
    check(b"----.", 61, Key(38)); // 9
    check(b"-----", 62, Key(39)); // 0

    // Custom codes
    check(b"..--", 18, Key(44)); // Space
    check(b".-.-", 20, Key(42)); // BSp
    check(b"---.", 29, Key(43)); // Tab
    check(b"----", 30, Key(40)); // Enter
    check(b"...-.", 33, Modifier(1)); // LCtrl
    check(b"..-..", 35, Modifier(2)); // LShift
    check(b".-...", 39, Modifier(4)); // LAlt
    check(b"..-.-", 36, Key(41)); // Esc
    check(b"..--.", 37, Key(45)); // -/_
    check(b".-..-", 40, Key(46)); // =/+
    check(b".-.-.", 41, Key(47)); // [/{
    check(b".-.--", 42, Key(48)); // ]/}
    check(b".--..", 43, Key(49)); // \/|
    check(b".--.-", 44, Key(51)); // ;/:
    check(b".---.", 45, Key(52)); // '/"
    check(b"-...-", 48, Key(53)); // `/~
    check(b"-..-.", 49, Key(54)); // ,/<
    check(b"-..--", 50, Key(55)); // ./>
    check(b"-.-..", 51, Key(56)); // //?
    check(b"-.-.-", 52, Key(76)); // Delete
    check(b"-.--.", 53, Key(101)); // Applic (but actually Menu)
    check(b".....-", 64, Key(79)); // Right
    check(b"....-.", 65, Key(82)); // Up
    check(b"...-..", 67, Key(81)); // Down
    check(b"..-...", 71, Key(80)); // Left
    check(b".-...-", 80, Key(77)); // End
    check(b".-..-.", 81, Key(75)); // PgUp
    check(b".-.-..", 83, Key(78)); // PgDown
    check(b".--...", 87, Key(74)); // Home
    check(b"-....-", 96, Key(58)); // F1
    check(b"-...-.", 97, Key(59)); // F2
    check(b"-...--", 98, Key(60)); // F3
    check(b"-..-..", 99, Key(61)); // F4
    check(b"-..-.-", 100, Key(62)); // F5
    check(b"-..--.", 101, Key(63)); // F6
    check(b"-..---", 102, Key(64)); // F7
    check(b"-.-...", 103, Key(65)); // F8
    check(b"-.-..-", 104, Key(66)); // F9
    check(b"-.-.-.", 105, Key(67)); // F10
    check(b"-.-.--", 106, Key(68)); // F11
    check(b"-.--..", 107, Key(69)); // F12
    check(b"--....", 111, Key(70)); // PrtScr
    check(b"--...-", 112, Key(72)); // Pause
    check(b"--..-.", 113, Key(73)); // Insert
    check(b"--..--", 114, Key(154)); // SysRq
    check(b"---..-", 120, Key(57)); // Caps Lock
    check(b"---.-.", 121, Key(83)); // Num Lock
    check(b"---.--", 122, Key(71)); // Scroll Lock
}
