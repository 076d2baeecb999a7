//! Every name spells its own key, and no other.
//!
//! Five characters tell all spellings apart. They are packed into a number, the
//! mark of a word, and the marks are listed in ascending order with the row that
//! they belong to. A word is then found by its mark, and two rows that shared a
//! word would share a place in the list.

use vstd::prelude::*;

use crate::clackctl::keycodes;
use crate::clackctl::keycodes::{COUNT, ROWS};
use crate::input;

verus! {

/// The number of marks.
const MARK_COUNT: usize = 244;

/// The marks of all spellings in ascending order, each with its row.
const MARKS: [(u64, u8); 244] = [
    (0x270000027, 50), (0x2c000002c, 52), (0x2d000002d, 43), (0x2e000002e, 53), (0x2f000002f, 54), (0x300000030, 37),
    (0x310000031, 28), (0x320000032, 29), (0x330000033, 30), (0x340000034, 31), (0x350000035, 32), (0x360000036, 33),
    (0x370000037, 34), (0x380000038, 35), (0x390000039, 36), (0x3b000003b, 49), (0x3d000003d, 44), (0x5b000005b, 45),
    (0x5c000005c, 47), (0x5d000005d, 46), (0x600000060, 51), (0x610000061, 2), (0x61d99c072, 145), (0x61e1c0070, 99),
    (0x61e1c30ee, 99), (0x61eb936e5, 116), (0x61eb93b6e, 118), (0x61eb93b70, 117), (0x620000062, 3), (0x62c38f0e5, 40),
    (0x62c38f0e8, 47), (0x62e5a4064, 138), (0x62e5a4075, 137), (0x62e5a776e, 138), (0x62e5a7770, 137), (0x62e5ac06b, 70),
    (0x62e7b0073, 47), (0x62e7c0063, 40), (0x630000063, 4), (0x63c3b0063, 126), (0x63c3b30f2, 126), (0x63c3c0073, 55),
    (0x63c3c37eb, 55), (0x63dfb4061, 52), (0x63dfb406d, 52), (0x640000064, 5), (0x64cbb0065, 74), (0x64cbb006c, 74),
    (0x64dfd0074, 53), (0x64dfdc06e, 79), (0x650000065, 6), (0x65d58c074, 124), (0x65dd90064, 75), (0x65ddd0072, 38),
    (0x65ddd0074, 38), (0x65e3b006c, 44), (0x65e3d406c, 44), (0x65e78c063, 39), (0x65e78c065, 39), (0x660000066, 7),
    (0x666200031, 56), (0x6662c0030, 65), (0x6662c4031, 66), (0x6662c8032, 67), (0x6662cc033, 101), (0x6662d0034, 102),
    (0x6662d4035, 103), (0x6662d8036, 104), (0x6662dc037, 105), (0x6662e0038, 106), (0x6662e4039, 107), (0x666400032, 57),
    (0x6664c0030, 108), (0x6664c4031, 109), (0x6664c8032, 110), (0x6664cc033, 111), (0x6664d0034, 112), (0x666600033, 58),
    (0x666800034, 59), (0x666a00035, 60), (0x666c00036, 61), (0x666e00037, 62), (0x667000038, 63), (0x667200039, 64),
    (0x670000067, 8), (0x67e584065, 51), (0x67e5d8076, 51), (0x680000068, 9), (0x68dfb4065, 72), (0x690000069, 10),
    (0x69ddcc073, 71), (0x69ddcc074, 71), (0x6a000006a, 11), (0x6b000006b, 12), (0x6be17c030, 96), (0x6be17c031, 87),
    (0x6be17c032, 88), (0x6be17c033, 89), (0x6be17c034, 90), (0x6be17c035, 91), (0x6be17c036, 92), (0x6be17c037, 93),
    (0x6be17c038, 94), (0x6be17c039, 95), (0x6be17c074, 97), (0x6be17f0ec, 100), (0x6be17f2eb, 83), (0x6be17f2f2, 86),
    (0x6be17f9e8, 82), (0x6be17f9f3, 85), (0x6be17faf3, 84), (0x6c000006c, 13), (0x6cc3b0074, 141), (0x6cc5c8063, 45),
    (0x6cc7b4064, 142), (0x6cc7d006c, 139), (0x6ccb98074, 78), (0x6ccb9b474, 140), (0x6ccb9b674, 141), (0x6ccb9b974, 45),
    (0x6ccb9ba6c, 139), (0x6ccb9bae9, 142), (0x6ccfd4069, 142), (0x6cdfc0074, 141), (0x6ce798074, 140), (0x6ce7a0074, 140),
    (0x6cefa406e, 142), (0x6d000006d, 14), (0x6dc3a406c, 125), (0x6dcb932f4, 124), (0x6dcb93364, 135), (0x6dcb9376b, 119),
    (0x6dcb93865, 122), (0x6dcb9386b, 120), (0x6dcb93964, 136), (0x6dcb939f0, 121), (0x6dcb939f4, 123), (0x6dcbb8075, 99),
    (0x6dcd98064, 135), (0x6dd3b8073, 43), (0x6ddde0074, 119), (0x6de1b0079, 122), (0x6de1c8076, 120), (0x6de5dc064, 136),
    (0x6de79406c, 123), (0x6de7d0070, 121), (0x6debd0065, 116), (0x6df37f872, 127), (0x6df38c06d, 127), (0x6e000006e, 15),
    (0x6ecbe0074, 119), (0x6ede0006f, 0), (0x6edfb8065, 0), (0x6edfbb168, 98), (0x6edfbb468, 48), (0x6eeb88073, 98),
    (0x6eeba0073, 48), (0x6eebb406d, 81), (0x6eebb71eb, 81), (0x6f000006f, 16), (0x700000070, 17), (0x70c39f7ee, 76),
    (0x70c39f870, 73), (0x70c3cc074, 83), (0x70c3d4065, 70), (0x70c3d4073, 70), (0x70c9bc074, 97), (0x70cbb8074, 86),
    (0x70cbc406c, 100), (0x70cf9006e, 76), (0x70cfd4070, 73), (0x70d984079, 122), (0x70dbb8073, 84), (0x70e1b0073, 85),
    (0x70e594076, 120), (0x70e5a79ee, 68), (0x70e5d0063, 68), (0x70e78c072, 68), (0x70e7b0073, 82), (0x70efc8072, 113),
    (0x710000071, 18), (0x71ebbc065, 50), (0x71ebbc074, 50), (0x720000072, 19), (0x72c3b0074, 145), (0x72c5c8063, 46),
    (0x72c7b4064, 146), (0x72c7d006c, 143), (0x72cbd006e, 38), (0x72cfa0074, 77), (0x72cfd4069, 146), (0x72d39c074, 77),
    (0x72d39f0f4, 145), (0x72d39f174, 46), (0x72d39f1ec, 143), (0x72d39f3e9, 146), (0x72d39f9f4, 144), (0x72dfc0074, 145),
    (0x72e798074, 144), (0x72e7a0074, 144), (0x72efa406e, 146), (0x730000073, 20), (0x73c7b006e, 49), (0x73c7c806c, 69),
    (0x73c7cafeb, 69), (0x73cbb766e, 49), (0x73d984068, 54), (0x73d994070, 114), (0x73d9cc068, 54), (0x73e184065, 42),
    (0x73e18c063, 42), (0x73f3cefe5, 115), (0x73f3ceff0, 114), (0x73f3ceff2, 113), (0x740000074, 21), (0x74c388062, 41),
    (0x74e584073, 1), (0x74e5870f4, 1), (0x74e5b8073, 1), (0x750000075, 22), (0x75e000070, 80), (0x760000076, 23),
    (0x76dfb0064, 118), (0x76dfb0075, 117), (0x770000077, 24), (0x77c3ac065, 115), (0x77c58406b, 130), (0x77cd84076, 134),
    (0x77cddc064, 131), (0x77d1bc06d, 129), (0x77e594066, 133), (0x77e78c068, 128), (0x77e7d0070, 132), (0x77efdf0e8, 128),
    (0x77efdf1eb, 130), (0x77efdf368, 133), (0x77efdf6e5, 129), (0x77efdf7f0, 132), (0x77efdf964, 131), (0x77efdfb73, 134),
    (0x780000078, 25), (0x78f1e0078, 0), (0x790000079, 26), (0x7a000007a, 27),
];

/// For each row, the places in `MARKS` of its name and of its other spellings.
const PLACES: [[u8; 4]; 147] = [
    [151, 152, 151, 241], [217, 216, 218, 0], [21, 0, 0, 0], [28, 0, 0, 0], [38, 0, 0, 0], [45, 0, 0, 0],
    [50, 0, 0, 0], [59, 0, 0, 0], [84, 0, 0, 0], [87, 0, 0, 0], [89, 0, 0, 0], [92, 0, 0, 0],
    [93, 0, 0, 0], [111, 0, 0, 0], [127, 0, 0, 0], [149, 0, 0, 0], [159, 0, 0, 0], [160, 0, 0, 0],
    [180, 0, 0, 0], [183, 0, 0, 0], [201, 0, 0, 0], [214, 0, 0, 0], [219, 0, 0, 0], [221, 0, 0, 0],
    [224, 0, 0, 0], [240, 0, 0, 0], [242, 0, 0, 0], [243, 0, 0, 0], [6, 0, 0, 0], [7, 0, 0, 0],
    [8, 0, 0, 0], [9, 0, 0, 0], [10, 0, 0, 0], [11, 0, 0, 0], [12, 0, 0, 0], [13, 0, 0, 0],
    [14, 0, 0, 0], [5, 0, 0, 0], [53, 54, 188, 0], [58, 57, 0, 0], [29, 37, 0, 0], [215, 0, 0, 0],
    [209, 210, 0, 0], [139, 139, 2, 0], [56, 55, 16, 0], [119, 113, 17, 0], [193, 185, 19, 0], [30, 36, 18, 0],
    [154, 156, 0, 0], [205, 202, 15, 0], [181, 182, 0, 0], [85, 86, 20, 0], [43, 44, 1, 0], [48, 3, 0, 0],
    [206, 208, 4, 0], [42, 41, 0, 0], [60, 0, 0, 0], [71, 0, 0, 0], [77, 0, 0, 0], [78, 0, 0, 0],
    [79, 0, 0, 0], [80, 0, 0, 0], [81, 0, 0, 0], [82, 0, 0, 0], [83, 0, 0, 0], [61, 0, 0, 0],
    [62, 0, 0, 0], [63, 0, 0, 0], [175, 177, 176, 0], [204, 203, 0, 0], [164, 165, 35, 0], [91, 90, 0, 0],
    [88, 0, 0, 0], [162, 170, 0, 0], [46, 47, 0, 0], [52, 0, 0, 0], [161, 169, 0, 0], [191, 189, 0, 0],
    [116, 0, 0, 0], [49, 0, 0, 0], [220, 0, 0, 0], [158, 157, 0, 0], [108, 178, 0, 0], [106, 163, 0, 0],
    [110, 172, 0, 0], [109, 173, 0, 0], [107, 167, 0, 0], [95, 0, 0, 0], [96, 0, 0, 0], [97, 0, 0, 0],
    [98, 0, 0, 0], [99, 0, 0, 0], [100, 0, 0, 0], [101, 0, 0, 0], [102, 0, 0, 0], [103, 0, 0, 0],
    [94, 0, 0, 0], [104, 166, 0, 0], [153, 155, 0, 0], [24, 23, 137, 0], [105, 168, 0, 0], [64, 0, 0, 0],
    [65, 0, 0, 0], [66, 0, 0, 0], [67, 0, 0, 0], [68, 0, 0, 0], [69, 0, 0, 0], [70, 0, 0, 0],
    [72, 0, 0, 0], [73, 0, 0, 0], [74, 0, 0, 0], [75, 0, 0, 0], [76, 0, 0, 0], [213, 179, 0, 0],
    [212, 207, 207, 0], [211, 225, 0, 0], [25, 146, 0, 0], [27, 223, 0, 0], [26, 222, 0, 0], [131, 140, 150, 0],
    [133, 142, 174, 0], [135, 145, 0, 0], [132, 141, 171, 0], [136, 144, 0, 0], [129, 51, 0, 0], [128, 0, 0, 0],
    [40, 39, 0, 0], [147, 148, 0, 0], [233, 231, 0, 0], [236, 229, 0, 0], [234, 226, 0, 0], [238, 228, 0, 0],
    [237, 232, 0, 0], [235, 230, 0, 0], [239, 227, 0, 0], [130, 138, 0, 0], [134, 143, 0, 0], [34, 32, 0, 0],
    [33, 31, 0, 0], [120, 115, 115, 0], [117, 124, 125, 0], [118, 112, 123, 0], [121, 122, 114, 126], [194, 187, 187, 0],
    [196, 198, 199, 0], [192, 184, 197, 22], [195, 190, 186, 200],
];

/// The character at `i` in lower case, or 0.
spec fn letter(w: Seq<char>, i: int) -> int {
    if 0 <= i < w.len() {
        input::lower(w[i]) as int
    } else {
        0
    }
}

/// What tells a spelling from the others, whatever the letter case.
spec fn mark(w: Seq<char>) -> int {
    (((letter(w, 0) * 128 + letter(w, 1)) * 128 + letter(w, 2)) * 128 + letter(w, 6)) * 128 + letter(w, w.len() - 1)
}

proof fn next_mark(p: int)
    requires
        0 <= p < MARK_COUNT - 1,
    ensures
        MARKS@[p].0 < MARKS@[p + 1].0,
{
}

proof fn marks_ascend(p: int, q: int)
    requires
        0 <= p < q < MARK_COUNT,
    ensures
        MARKS@[p].0 < MARKS@[q].0,
    decreases q - p,
{
    next_mark(q - 1);
    if p < q - 1 {
        marks_ascend(p, q - 1);
    }
}

proof fn places_are_own(i: int, a: int)
    requires
        0 <= i < COUNT,
        0 <= a < 4,
    ensures
        0 <= PLACES@[i]@[a] < MARK_COUNT,
{
}

proof fn name_marks(i: int)
    requires
        0 <= i < COUNT,
    ensures
        MARKS@[PLACES@[i]@[0] as int] == (mark(keycodes::bare(ROWS@[i].1@)) as u64, i as u8),
{
    reveal_strlit("KC_NO");
    reveal_strlit("KC_TRANSPARENT");
    reveal_strlit("KC_A");
    reveal_strlit("KC_B");
    reveal_strlit("KC_C");
    reveal_strlit("KC_D");
    reveal_strlit("KC_E");
    reveal_strlit("KC_F");
    reveal_strlit("KC_G");
    reveal_strlit("KC_H");
    reveal_strlit("KC_I");
    reveal_strlit("KC_J");
    reveal_strlit("KC_K");
    reveal_strlit("KC_L");
    reveal_strlit("KC_M");
    reveal_strlit("KC_N");
    reveal_strlit("KC_O");
    reveal_strlit("KC_P");
    reveal_strlit("KC_Q");
    reveal_strlit("KC_R");
    reveal_strlit("KC_S");
    reveal_strlit("KC_T");
    reveal_strlit("KC_U");
    reveal_strlit("KC_V");
    reveal_strlit("KC_W");
    reveal_strlit("KC_X");
    reveal_strlit("KC_Y");
    reveal_strlit("KC_Z");
    reveal_strlit("KC_1");
    reveal_strlit("KC_2");
    reveal_strlit("KC_3");
    reveal_strlit("KC_4");
    reveal_strlit("KC_5");
    reveal_strlit("KC_6");
    reveal_strlit("KC_7");
    reveal_strlit("KC_8");
    reveal_strlit("KC_9");
    reveal_strlit("KC_0");
    reveal_strlit("KC_ENTER");
    reveal_strlit("KC_ESCAPE");
    reveal_strlit("KC_BACKSPACE");
    reveal_strlit("KC_TAB");
    reveal_strlit("KC_SPACE");
    reveal_strlit("KC_MINUS");
    reveal_strlit("KC_EQUAL");
    reveal_strlit("KC_LEFT_BRACKET");
    reveal_strlit("KC_RIGHT_BRACKET");
    reveal_strlit("KC_BACKSLASH");
    reveal_strlit("KC_NONUS_HASH");
    reveal_strlit("KC_SEMICOLON");
    reveal_strlit("KC_QUOTE");
    reveal_strlit("KC_GRAVE");
    reveal_strlit("KC_COMMA");
    reveal_strlit("KC_DOT");
    reveal_strlit("KC_SLASH");
    reveal_strlit("KC_CAPS_LOCK");
    reveal_strlit("KC_F1");
    reveal_strlit("KC_F2");
    reveal_strlit("KC_F3");
    reveal_strlit("KC_F4");
    reveal_strlit("KC_F5");
    reveal_strlit("KC_F6");
    reveal_strlit("KC_F7");
    reveal_strlit("KC_F8");
    reveal_strlit("KC_F9");
    reveal_strlit("KC_F10");
    reveal_strlit("KC_F11");
    reveal_strlit("KC_F12");
    reveal_strlit("KC_PRINT_SCREEN");
    reveal_strlit("KC_SCROLL_LOCK");
    reveal_strlit("KC_PAUSE");
    reveal_strlit("KC_INSERT");
    reveal_strlit("KC_HOME");
    reveal_strlit("KC_PAGE_UP");
    reveal_strlit("KC_DELETE");
    reveal_strlit("KC_END");
    reveal_strlit("KC_PAGE_DOWN");
    reveal_strlit("KC_RIGHT");
    reveal_strlit("KC_LEFT");
    reveal_strlit("KC_DOWN");
    reveal_strlit("KC_UP");
    reveal_strlit("KC_NUM_LOCK");
    reveal_strlit("KC_KP_SLASH");
    reveal_strlit("KC_KP_ASTERISK");
    reveal_strlit("KC_KP_MINUS");
    reveal_strlit("KC_KP_PLUS");
    reveal_strlit("KC_KP_ENTER");
    reveal_strlit("KC_KP_1");
    reveal_strlit("KC_KP_2");
    reveal_strlit("KC_KP_3");
    reveal_strlit("KC_KP_4");
    reveal_strlit("KC_KP_5");
    reveal_strlit("KC_KP_6");
    reveal_strlit("KC_KP_7");
    reveal_strlit("KC_KP_8");
    reveal_strlit("KC_KP_9");
    reveal_strlit("KC_KP_0");
    reveal_strlit("KC_KP_DOT");
    reveal_strlit("KC_NONUS_BACKSLASH");
    reveal_strlit("KC_APPLICATION");
    reveal_strlit("KC_KP_EQUAL");
    reveal_strlit("KC_F13");
    reveal_strlit("KC_F14");
    reveal_strlit("KC_F15");
    reveal_strlit("KC_F16");
    reveal_strlit("KC_F17");
    reveal_strlit("KC_F18");
    reveal_strlit("KC_F19");
    reveal_strlit("KC_F20");
    reveal_strlit("KC_F21");
    reveal_strlit("KC_F22");
    reveal_strlit("KC_F23");
    reveal_strlit("KC_F24");
    reveal_strlit("KC_SYSTEM_POWER");
    reveal_strlit("KC_SYSTEM_SLEEP");
    reveal_strlit("KC_SYSTEM_WAKE");
    reveal_strlit("KC_AUDIO_MUTE");
    reveal_strlit("KC_AUDIO_VOL_UP");
    reveal_strlit("KC_AUDIO_VOL_DOWN");
    reveal_strlit("KC_MEDIA_NEXT_TRACK");
    reveal_strlit("KC_MEDIA_PREV_TRACK");
    reveal_strlit("KC_MEDIA_STOP");
    reveal_strlit("KC_MEDIA_PLAY_PAUSE");
    reveal_strlit("KC_MEDIA_SELECT");
    reveal_strlit("KC_MEDIA_EJECT");
    reveal_strlit("KC_MAIL");
    reveal_strlit("KC_CALCULATOR");
    reveal_strlit("KC_MY_COMPUTER");
    reveal_strlit("KC_WWW_SEARCH");
    reveal_strlit("KC_WWW_HOME");
    reveal_strlit("KC_WWW_BACK");
    reveal_strlit("KC_WWW_FORWARD");
    reveal_strlit("KC_WWW_STOP");
    reveal_strlit("KC_WWW_REFRESH");
    reveal_strlit("KC_WWW_FAVORITES");
    reveal_strlit("KC_MEDIA_FAST_FORWARD");
    reveal_strlit("KC_MEDIA_REWIND");
    reveal_strlit("KC_BRIGHTNESS_UP");
    reveal_strlit("KC_BRIGHTNESS_DOWN");
    reveal_strlit("KC_LEFT_CTRL");
    reveal_strlit("KC_LEFT_SHIFT");
    reveal_strlit("KC_LEFT_ALT");
    reveal_strlit("KC_LEFT_GUI");
    reveal_strlit("KC_RIGHT_CTRL");
    reveal_strlit("KC_RIGHT_SHIFT");
    reveal_strlit("KC_RIGHT_ALT");
    reveal_strlit("KC_RIGHT_GUI");
}

proof fn alias_marks(i: int, j: int, p: int)
    requires
        0 <= i < COUNT,
        0 <= j < 3,
        keycodes::spelled(ROWS@[i].3@[j]),
    ensures
        MARKS@[PLACES@[i]@[j + 1] as int] == (mark(ROWS@[i].3@[j]@) as u64, i as u8),
        letter(ROWS@[i].3@[j]@, 2) != '_' as int,
        !input::blank(ROWS@[i].3@[j]@[0]),
        !input::blank(ROWS@[i].3@[j]@.last()),
        0 <= p < ROWS@[i].3@[j]@.len() && ROWS@[i].3@[j]@[p] == '-' ==> ROWS@[i].3@[j]@.len() == 1,
{
    reveal_strlit("'");
    reveal_strlit(",");
    reveal_strlit("-");
    reveal_strlit(".");
    reveal_strlit("/");
    reveal_strlit(";");
    reveal_strlit("=");
    reveal_strlit("[");
    reveal_strlit("\\");
    reveal_strlit("]");
    reveal_strlit("`");
    reveal_strlit("algr");
    reveal_strlit("app");
    reveal_strlit("brid");
    reveal_strlit("briu");
    reveal_strlit("brk");
    reveal_strlit("bsls");
    reveal_strlit("bspc");
    reveal_strlit("calc");
    reveal_strlit("caps");
    reveal_strlit("comm");
    reveal_strlit("del");
    reveal_strlit("ejct");
    reveal_strlit("ent");
    reveal_strlit("eql");
    reveal_strlit("esc");
    reveal_strlit("grv");
    reveal_strlit("ins");
    reveal_strlit("lalt");
    reveal_strlit("lbrc");
    reveal_strlit("lcmd");
    reveal_strlit("lctl");
    reveal_strlit("lctrl");
    reveal_strlit("lgui");
    reveal_strlit("lopt");
    reveal_strlit("lsft");
    reveal_strlit("lshift");
    reveal_strlit("lwin");
    reveal_strlit("menu");
    reveal_strlit("mffd");
    reveal_strlit("mins");
    reveal_strlit("mnxt");
    reveal_strlit("mply");
    reveal_strlit("mprv");
    reveal_strlit("mrwd");
    reveal_strlit("msel");
    reveal_strlit("mstp");
    reveal_strlit("mute");
    reveal_strlit("mycm");
    reveal_strlit("next");
    reveal_strlit("no");
    reveal_strlit("none");
    reveal_strlit("nubs");
    reveal_strlit("nuhs");
    reveal_strlit("num");
    reveal_strlit("past");
    reveal_strlit("paus");
    reveal_strlit("pdot");
    reveal_strlit("pent");
    reveal_strlit("peql");
    reveal_strlit("pgdn");
    reveal_strlit("pgup");
    reveal_strlit("play");
    reveal_strlit("pmns");
    reveal_strlit("ppls");
    reveal_strlit("prev");
    reveal_strlit("prtsc");
    reveal_strlit("pscr");
    reveal_strlit("psls");
    reveal_strlit("pwr");
    reveal_strlit("quot");
    reveal_strlit("ralt");
    reveal_strlit("rbrc");
    reveal_strlit("rcmd");
    reveal_strlit("rctl");
    reveal_strlit("rctrl");
    reveal_strlit("return");
    reveal_strlit("rght");
    reveal_strlit("rgui");
    reveal_strlit("ropt");
    reveal_strlit("rsft");
    reveal_strlit("rshift");
    reveal_strlit("rwin");
    reveal_strlit("scln");
    reveal_strlit("scrl");
    reveal_strlit("sleep");
    reveal_strlit("slep");
    reveal_strlit("slsh");
    reveal_strlit("spc");
    reveal_strlit("trans");
    reveal_strlit("trns");
    reveal_strlit("vold");
    reveal_strlit("volu");
    reveal_strlit("wake");
    reveal_strlit("wbak");
    reveal_strlit("wfav");
    reveal_strlit("wfwd");
    reveal_strlit("whom");
    reveal_strlit("wref");
    reveal_strlit("wsch");
    reveal_strlit("wstp");
    reveal_strlit("xxx");
    reveal_strlit("");
}

/// An upper-case letter, a digit or an underscore.
spec fn plain(c: char) -> bool {
    ('A' <= c <= 'Z') || ('0' <= c <= '9') || c == '_'
}

proof fn names_are_plain(i: int, p: int)
    requires
        0 <= i < COUNT,
    ensures
        ROWS@[i].1@.len() > 3,
        ROWS@[i].1@[0] == 'K',
        ROWS@[i].1@[1] == 'C',
        ROWS@[i].1@[2] == '_',
        0 <= p < ROWS@[i].1@.len() ==> plain(ROWS@[i].1@[p]),
        ROWS@[i].1@.len() > 5 ==> ROWS@[i].1@[3] != 'K' || ROWS@[i].1@[4] != 'C',
{
    reveal_strlit("KC_NO");
    reveal_strlit("KC_TRANSPARENT");
    reveal_strlit("KC_A");
    reveal_strlit("KC_B");
    reveal_strlit("KC_C");
    reveal_strlit("KC_D");
    reveal_strlit("KC_E");
    reveal_strlit("KC_F");
    reveal_strlit("KC_G");
    reveal_strlit("KC_H");
    reveal_strlit("KC_I");
    reveal_strlit("KC_J");
    reveal_strlit("KC_K");
    reveal_strlit("KC_L");
    reveal_strlit("KC_M");
    reveal_strlit("KC_N");
    reveal_strlit("KC_O");
    reveal_strlit("KC_P");
    reveal_strlit("KC_Q");
    reveal_strlit("KC_R");
    reveal_strlit("KC_S");
    reveal_strlit("KC_T");
    reveal_strlit("KC_U");
    reveal_strlit("KC_V");
    reveal_strlit("KC_W");
    reveal_strlit("KC_X");
    reveal_strlit("KC_Y");
    reveal_strlit("KC_Z");
    reveal_strlit("KC_1");
    reveal_strlit("KC_2");
    reveal_strlit("KC_3");
    reveal_strlit("KC_4");
    reveal_strlit("KC_5");
    reveal_strlit("KC_6");
    reveal_strlit("KC_7");
    reveal_strlit("KC_8");
    reveal_strlit("KC_9");
    reveal_strlit("KC_0");
    reveal_strlit("KC_ENTER");
    reveal_strlit("KC_ESCAPE");
    reveal_strlit("KC_BACKSPACE");
    reveal_strlit("KC_TAB");
    reveal_strlit("KC_SPACE");
    reveal_strlit("KC_MINUS");
    reveal_strlit("KC_EQUAL");
    reveal_strlit("KC_LEFT_BRACKET");
    reveal_strlit("KC_RIGHT_BRACKET");
    reveal_strlit("KC_BACKSLASH");
    reveal_strlit("KC_NONUS_HASH");
    reveal_strlit("KC_SEMICOLON");
    reveal_strlit("KC_QUOTE");
    reveal_strlit("KC_GRAVE");
    reveal_strlit("KC_COMMA");
    reveal_strlit("KC_DOT");
    reveal_strlit("KC_SLASH");
    reveal_strlit("KC_CAPS_LOCK");
    reveal_strlit("KC_F1");
    reveal_strlit("KC_F2");
    reveal_strlit("KC_F3");
    reveal_strlit("KC_F4");
    reveal_strlit("KC_F5");
    reveal_strlit("KC_F6");
    reveal_strlit("KC_F7");
    reveal_strlit("KC_F8");
    reveal_strlit("KC_F9");
    reveal_strlit("KC_F10");
    reveal_strlit("KC_F11");
    reveal_strlit("KC_F12");
    reveal_strlit("KC_PRINT_SCREEN");
    reveal_strlit("KC_SCROLL_LOCK");
    reveal_strlit("KC_PAUSE");
    reveal_strlit("KC_INSERT");
    reveal_strlit("KC_HOME");
    reveal_strlit("KC_PAGE_UP");
    reveal_strlit("KC_DELETE");
    reveal_strlit("KC_END");
    reveal_strlit("KC_PAGE_DOWN");
    reveal_strlit("KC_RIGHT");
    reveal_strlit("KC_LEFT");
    reveal_strlit("KC_DOWN");
    reveal_strlit("KC_UP");
    reveal_strlit("KC_NUM_LOCK");
    reveal_strlit("KC_KP_SLASH");
    reveal_strlit("KC_KP_ASTERISK");
    reveal_strlit("KC_KP_MINUS");
    reveal_strlit("KC_KP_PLUS");
    reveal_strlit("KC_KP_ENTER");
    reveal_strlit("KC_KP_1");
    reveal_strlit("KC_KP_2");
    reveal_strlit("KC_KP_3");
    reveal_strlit("KC_KP_4");
    reveal_strlit("KC_KP_5");
    reveal_strlit("KC_KP_6");
    reveal_strlit("KC_KP_7");
    reveal_strlit("KC_KP_8");
    reveal_strlit("KC_KP_9");
    reveal_strlit("KC_KP_0");
    reveal_strlit("KC_KP_DOT");
    reveal_strlit("KC_NONUS_BACKSLASH");
    reveal_strlit("KC_APPLICATION");
    reveal_strlit("KC_KP_EQUAL");
    reveal_strlit("KC_F13");
    reveal_strlit("KC_F14");
    reveal_strlit("KC_F15");
    reveal_strlit("KC_F16");
    reveal_strlit("KC_F17");
    reveal_strlit("KC_F18");
    reveal_strlit("KC_F19");
    reveal_strlit("KC_F20");
    reveal_strlit("KC_F21");
    reveal_strlit("KC_F22");
    reveal_strlit("KC_F23");
    reveal_strlit("KC_F24");
    reveal_strlit("KC_SYSTEM_POWER");
    reveal_strlit("KC_SYSTEM_SLEEP");
    reveal_strlit("KC_SYSTEM_WAKE");
    reveal_strlit("KC_AUDIO_MUTE");
    reveal_strlit("KC_AUDIO_VOL_UP");
    reveal_strlit("KC_AUDIO_VOL_DOWN");
    reveal_strlit("KC_MEDIA_NEXT_TRACK");
    reveal_strlit("KC_MEDIA_PREV_TRACK");
    reveal_strlit("KC_MEDIA_STOP");
    reveal_strlit("KC_MEDIA_PLAY_PAUSE");
    reveal_strlit("KC_MEDIA_SELECT");
    reveal_strlit("KC_MEDIA_EJECT");
    reveal_strlit("KC_MAIL");
    reveal_strlit("KC_CALCULATOR");
    reveal_strlit("KC_MY_COMPUTER");
    reveal_strlit("KC_WWW_SEARCH");
    reveal_strlit("KC_WWW_HOME");
    reveal_strlit("KC_WWW_BACK");
    reveal_strlit("KC_WWW_FORWARD");
    reveal_strlit("KC_WWW_STOP");
    reveal_strlit("KC_WWW_REFRESH");
    reveal_strlit("KC_WWW_FAVORITES");
    reveal_strlit("KC_MEDIA_FAST_FORWARD");
    reveal_strlit("KC_MEDIA_REWIND");
    reveal_strlit("KC_BRIGHTNESS_UP");
    reveal_strlit("KC_BRIGHTNESS_DOWN");
    reveal_strlit("KC_LEFT_CTRL");
    reveal_strlit("KC_LEFT_SHIFT");
    reveal_strlit("KC_LEFT_ALT");
    reveal_strlit("KC_LEFT_GUI");
    reveal_strlit("KC_RIGHT_CTRL");
    reveal_strlit("KC_RIGHT_SHIFT");
    reveal_strlit("KC_RIGHT_ALT");
    reveal_strlit("KC_RIGHT_GUI");
}

/// Words that differ in letter case only have the same mark.
proof fn marks_ignore_case(a: Seq<char>, b: Seq<char>)
    requires
        input::same_letters(a, b),
    ensures
        mark(a) == mark(b),
{
    let x = input::lowered(a);
    let y = input::lowered(b);
    assert(x.len() == a.len() && y.len() == b.len());
    assert forall|i: int| letter(a, i) == letter(b, i) by {
        if 0 <= i < a.len() {
            assert(x[i] == input::lower(a[i]));
            assert(y[i] == input::lower(b[i]));
        }
    }
}

/// Two places with the same mark are one.
proof fn marks_are_distinct(p: int, q: int)
    requires
        0 <= p < MARK_COUNT,
        0 <= q < MARK_COUNT,
        MARKS@[p].0 == MARKS@[q].0,
    ensures
        p == q,
{
    if p < q {
        marks_ascend(p, q);
    }
    if q < p {
        marks_ascend(q, p);
    }
}

/// A word that is spelled in two rows is spelled in one.
proof fn one_row(i: int, a: int, k: int, b: int)
    requires
        0 <= i < COUNT,
        0 <= k < COUNT,
        0 <= a < 4,
        0 <= b < 4,
        MARKS@[PLACES@[i]@[a] as int].1 == i as u8,
        MARKS@[PLACES@[k]@[b] as int].1 == k as u8,
        MARKS@[PLACES@[i]@[a] as int].0 == MARKS@[PLACES@[k]@[b] as int].0,
    ensures
        i == k,
{
    places_are_own(i, a);
    places_are_own(k, b);
    marks_are_distinct(PLACES@[i]@[a] as int, PLACES@[k]@[b] as int);
    assert(i as u8 == k as u8);
}

/// The codes ascend, so a code has one row at most.
pub proof fn codes_ascend(i: int, k: int)
    requires
        0 <= i < k < COUNT,
    ensures
        ROWS@[i].0 < ROWS@[k].0,
    decreases k - i,
{
    next_code(k - 1);
    if i < k - 1 {
        codes_ascend(i, k - 1);
    }
}

proof fn next_code(i: int)
    requires
        0 <= i < COUNT - 1,
    ensures
        ROWS@[i].0 < ROWS@[i + 1].0,
{
}

proof fn code_found_from(k: int, i: int)
    requires
        0 <= i <= k < COUNT,
    ensures
        keycodes::first_code(ROWS@[k].0, i) == Some(k),
    decreases k - i,
{
    if i < k {
        codes_ascend(i, k);
        code_found_from(k, i + 1);
    }
}

/// Every listed code is found in its own row.
pub proof fn every_code_is_found(k: int)
    requires
        0 <= k < COUNT,
    ensures
        keycodes::first_code(ROWS@[k].0, 0) == Some(k),
{
    code_found_from(k, 0);
}

/// Grid labels have at most four characters.
pub proof fn labels_are_short(i: int)
    requires
        0 <= i < COUNT,
    ensures
        1 <= ROWS@[i].2@.len() <= 4,
{
    reveal_strlit("#");
    reveal_strlit("'");
    reveal_strlit(",");
    reveal_strlit("-");
    reveal_strlit("--");
    reveal_strlit(".");
    reveal_strlit("/");
    reveal_strlit("0");
    reveal_strlit("1");
    reveal_strlit("2");
    reveal_strlit("3");
    reveal_strlit("4");
    reveal_strlit("5");
    reveal_strlit("6");
    reveal_strlit("7");
    reveal_strlit("8");
    reveal_strlit("9");
    reveal_strlit(";");
    reveal_strlit("=");
    reveal_strlit("A");
    reveal_strlit("APP");
    reveal_strlit("B");
    reveal_strlit("BRID");
    reveal_strlit("BRIU");
    reveal_strlit("BSPC");
    reveal_strlit("C");
    reveal_strlit("CALC");
    reveal_strlit("CAPS");
    reveal_strlit("D");
    reveal_strlit("DEL");
    reveal_strlit("DOWN");
    reveal_strlit("E");
    reveal_strlit("EJCT");
    reveal_strlit("END");
    reveal_strlit("ENT");
    reveal_strlit("ESC");
    reveal_strlit("F");
    reveal_strlit("F1");
    reveal_strlit("F10");
    reveal_strlit("F11");
    reveal_strlit("F12");
    reveal_strlit("F13");
    reveal_strlit("F14");
    reveal_strlit("F15");
    reveal_strlit("F16");
    reveal_strlit("F17");
    reveal_strlit("F18");
    reveal_strlit("F19");
    reveal_strlit("F2");
    reveal_strlit("F20");
    reveal_strlit("F21");
    reveal_strlit("F22");
    reveal_strlit("F23");
    reveal_strlit("F24");
    reveal_strlit("F3");
    reveal_strlit("F4");
    reveal_strlit("F5");
    reveal_strlit("F6");
    reveal_strlit("F7");
    reveal_strlit("F8");
    reveal_strlit("F9");
    reveal_strlit("G");
    reveal_strlit("H");
    reveal_strlit("HOME");
    reveal_strlit("I");
    reveal_strlit("INS");
    reveal_strlit("J");
    reveal_strlit("K");
    reveal_strlit("L");
    reveal_strlit("LALT");
    reveal_strlit("LCTL");
    reveal_strlit("LEFT");
    reveal_strlit("LGUI");
    reveal_strlit("LSFT");
    reveal_strlit("M");
    reveal_strlit("MAIL");
    reveal_strlit("MFFD");
    reveal_strlit("MNXT");
    reveal_strlit("MPLY");
    reveal_strlit("MPRV");
    reveal_strlit("MRWD");
    reveal_strlit("MSEL");
    reveal_strlit("MSTP");
    reveal_strlit("MUTE");
    reveal_strlit("MYCM");
    reveal_strlit("N");
    reveal_strlit("NUBS");
    reveal_strlit("NUM");
    reveal_strlit("O");
    reveal_strlit("P");
    reveal_strlit("P*");
    reveal_strlit("P+");
    reveal_strlit("P-");
    reveal_strlit("P.");
    reveal_strlit("P/");
    reveal_strlit("P0");
    reveal_strlit("P1");
    reveal_strlit("P2");
    reveal_strlit("P3");
    reveal_strlit("P4");
    reveal_strlit("P5");
    reveal_strlit("P6");
    reveal_strlit("P7");
    reveal_strlit("P8");
    reveal_strlit("P9");
    reveal_strlit("P=");
    reveal_strlit("PAUS");
    reveal_strlit("PENT");
    reveal_strlit("PGDN");
    reveal_strlit("PGUP");
    reveal_strlit("PSCR");
    reveal_strlit("PWR");
    reveal_strlit("Q");
    reveal_strlit("R");
    reveal_strlit("RALT");
    reveal_strlit("RCTL");
    reveal_strlit("RGHT");
    reveal_strlit("RGUI");
    reveal_strlit("RSFT");
    reveal_strlit("S");
    reveal_strlit("SCRL");
    reveal_strlit("SLEP");
    reveal_strlit("SPC");
    reveal_strlit("T");
    reveal_strlit("TAB");
    reveal_strlit("TRNS");
    reveal_strlit("U");
    reveal_strlit("UP");
    reveal_strlit("V");
    reveal_strlit("VOLD");
    reveal_strlit("VOLU");
    reveal_strlit("W");
    reveal_strlit("WAKE");
    reveal_strlit("WBAK");
    reveal_strlit("WFAV");
    reveal_strlit("WFWD");
    reveal_strlit("WHOM");
    reveal_strlit("WREF");
    reveal_strlit("WSCH");
    reveal_strlit("WSTP");
    reveal_strlit("X");
    reveal_strlit("Y");
    reveal_strlit("Z");
    reveal_strlit("[");
    reveal_strlit("\\");
    reveal_strlit("]");
    reveal_strlit("`");
}

/// A spelling has a place among the marks.
proof fn spelling_has_a_place(k: int, word: Seq<char>) -> (a: int)
    requires
        0 <= k < COUNT,
        keycodes::is_name(k, word),
    ensures
        0 <= a < 4,
        MARKS@[PLACES@[k]@[a] as int] == (mark(word) as u64, k as u8),
{
    if keycodes::bare(ROWS@[k].1@) == word {
        name_marks(k);
        0
    } else {
        let j = choose|j: int|
            0 <= j < 3 && keycodes::spelled(#[trigger] ROWS@[k].3@[j]) && input::same_letters(ROWS@[k].3@[j]@, word);
        alias_marks(k, j, 0);
        marks_ignore_case(ROWS@[k].3@[j]@, word);
        j + 1
    }
}

/// No two keys share a spelling.
proof fn one_key(i: int, k: int, word: Seq<char>)
    requires
        0 <= i < COUNT,
        0 <= k < COUNT,
        keycodes::is_name(i, word),
        keycodes::is_name(k, word),
    ensures
        i == k,
{
    let a = spelling_has_a_place(i, word);
    let b = spelling_has_a_place(k, word);
    one_row(i, a, k, b);
}

/// An underscore alone has no place among the marks.
proof fn underscore_has_no_mark(p: int)
    requires
        0 <= p < MARK_COUNT,
    ensures
        MARKS@[p].0 != 0x5f000005f,
{
}

/// An underscore alone spells no key.
proof fn underscore_spells_nothing(k: int)
    requires
        0 <= k < COUNT,
    ensures
        !keycodes::is_name(k, seq!['_']),
{
    let word = seq!['_'];
    if keycodes::is_name(k, word) {
        let a = spelling_has_a_place(k, word);
        places_are_own(k, a);
        underscore_has_no_mark(PLACES@[k]@[a] as int);
        assert(word.len() == 1 && word[0] == '_');
        assert(letter(word, 0) == 0x5f && letter(word, 1) == 0 && letter(word, 2) == 0 && letter(word, 6) == 0);
        assert(mark(word) == 0x5f000005f);
    }
}

/// A spelling other than the name stays one when it is written as names are,
/// unless it is a hyphen.
proof fn canonical_aliases(i: int, word: Seq<char>)
    requires
        0 <= i < COUNT,
        keycodes::is_alias(i, word),
    ensures
        word.len() > 0,
        !input::blank(word[0]),
        !input::blank(word.last()),
        keycodes::is_alias(i, keycodes::canonical(word)) || keycodes::canonical(word) == seq!['_'],
{
    let j = choose|j: int|
        0 <= j < 3 && keycodes::spelled(#[trigger] ROWS@[i].3@[j]) && input::same_letters(ROWS@[i].3@[j]@, word);
    let alias = ROWS@[i].3@[j]@;
    let upper = input::uppered(word);
    let text = input::replaced(upper, '-', '_');
    alias_marks(i, j, 0);
    assert(input::lowered(alias).len() == alias.len() && input::lowered(word).len() == word.len());
    assert forall|p: int| 0 <= p < word.len() implies input::lower(alias[p]) == input::lower(#[trigger] word[p]) by {
        assert(input::lowered(alias)[p] == input::lower(alias[p]));
        assert(input::lowered(word)[p] == input::lower(word[p]));
    }
    assert(input::lower(alias[0]) == input::lower(word[0]));
    assert(input::lower(alias.last()) == input::lower(word.last()));
    if exists|p: int| 0 <= p < word.len() && #[trigger] word[p] == '-' {
        let p = choose|p: int| 0 <= p < word.len() && #[trigger] word[p] == '-';
        assert(input::lower(alias[p]) == input::lower(word[p]));
        alias_marks(i, j, p);
        assert(text =~= seq!['_']);
    } else {
        assert forall|p: int| 0 <= p < word.len() implies text[p] == input::upper(word[p]) by {
            assert(word[p] != '-');
        }
        if word.len() > 2 {
            assert(input::lower(alias[2]) == input::lower(word[2]));
            assert(text[2] == input::upper(word[2]));
        }
        assert(keycodes::canonical(word) == text);
        assert(input::lowered(text) =~= input::lowered(word));
        assert(input::same_letters(alias, text));
        assert(keycodes::spelled(ROWS@[i].3@[j]));
    }
}

/// A written name, read as names are, is the name.
proof fn written_names(word: Seq<char>, k: int)
    requires
        0 <= k < COUNT,
        keycodes::writes(word, ROWS@[k].1@) || keycodes::writes(word, ROWS@[k].1@.skip(3)),
    ensures
        word.len() > 0,
        !input::blank(word[0]),
        !input::blank(word.last()),
        keycodes::canonical(word) == keycodes::bare(ROWS@[k].1@),
{
    let name = ROWS@[k].1@;
    names_are_plain(k, 0);
    assert forall|p: int| 0 <= p < name.len() implies plain(#[trigger] name[p]) by {
        names_are_plain(k, p);
    }
    let text = input::replaced(input::uppered(word), '-', '_');
    let part = if keycodes::writes(word, name) {
        name
    } else {
        name.skip(3)
    };
    assert forall|p: int| 0 <= p < part.len() implies text[p] == part[p] by {
        assert(input::upper(word[p]) == part[p] || (word[p] == '-' && part[p] == '_'));
        assert(plain(part[p])) by {
            if part.len() < name.len() {
                assert(part[p] == name[p + 3]);
            }
        }
    }
    assert(text =~= part);
    assert(plain(part[0]) && plain(part.last()));
    assert(input::upper(word[0]) == part[0] || word[0] == '-');
    assert(input::upper(word[word.len() - 1]) == part[word.len() - 1] || word[word.len() - 1] == '-');
    if part.len() < name.len() {
        assert(part =~= keycodes::bare(name));
        if part.len() >= 3 {
            assert(part[0] == name[3] && part[1] == name[4]);
        }
    }
}

/// A word has no white space at its ends if its canonical form has none.
proof fn canonical_ends(word: Seq<char>)
    requires
        keycodes::canonical(word).len() > 0,
        !input::blank(keycodes::canonical(word)[0]),
        !input::blank(keycodes::canonical(word).last()),
    ensures
        word.len() > 0,
        !input::blank(word[0]),
        !input::blank(word.last()),
{
    let text = input::replaced(input::uppered(word), '-', '_');
    assert(text.len() == word.len());
    assert(keycodes::canonical(word).last() == text.last());
    if keycodes::canonical(word).len() == word.len() {
        assert(keycodes::canonical(word)[0] == text[0]);
    }
}

proof fn first_alias_is_one(word: Seq<char>, i: int)
    requires
        0 <= i <= COUNT,
    ensures
        match keycodes::first_alias(word, i) {
            Some(r) => i <= r < COUNT && keycodes::is_alias(r, word),
            None => forall|k: int| i <= k < COUNT ==> !keycodes::is_alias(k, word),
        },
    decreases COUNT - i,
{
    if i < COUNT {
        first_alias_is_one(word, i + 1);
    }
}

proof fn first_name_is_one(word: Seq<char>, i: int)
    requires
        0 <= i <= COUNT,
    ensures
        match keycodes::first_name(word, i) {
            Some(r) => i <= r < COUNT && keycodes::is_name(r, word),
            None => forall|k: int| i <= k < COUNT ==> !keycodes::is_name(k, word),
        },
    decreases COUNT - i,
{
    if i < COUNT {
        first_name_is_one(word, i + 1);
    }
}

/// What a spelling comes to.
proof fn spellings_are_names(word: Seq<char>, k: int)
    requires
        0 <= k < COUNT,
        keycodes::spells(word, k),
    ensures
        word.len() > 0,
        !input::blank(word[0]),
        !input::blank(word.last()),
        keycodes::is_alias(k, word) || keycodes::is_name(k, keycodes::canonical(word)),
{
    if keycodes::writes(word, ROWS@[k].1@) || keycodes::writes(word, ROWS@[k].1@.skip(3)) {
        written_names(word, k);
    } else if keycodes::is_alias(k, word) {
        canonical_aliases(k, word);
    } else {
        canonical_aliases(k, keycodes::canonical(word));
        canonical_ends(word);
    }
}

/// Every spelling of a key reads as the key's code, with white space around it or
/// without: the name, with or without `KC_`, with hyphens for underscores, and the
/// other spellings, all in any letter case.
pub proof fn every_spelling_resolves(lead: Seq<char>, word: Seq<char>, trail: Seq<char>, k: int)
    requires
        forall|i: int| 0 <= i < lead.len() ==> input::blank(#[trigger] lead[i]),
        forall|i: int| 0 <= i < trail.len() ==> input::blank(#[trigger] trail[i]),
        0 <= k < COUNT,
        keycodes::spells(word, k),
    ensures
        keycodes::named(lead + word + trail) == Some(ROWS@[k].0),
{
    let names = keycodes::canonical(word);
    spellings_are_names(word, k);
    input::padding_is_trimmed(lead, word, trail);
    first_alias_is_one(word, 0);
    first_name_is_one(names, 0);
    match keycodes::first_alias(word, 0) {
        Some(i) => {
            canonical_aliases(i, word);
            if keycodes::is_alias(k, word) {
                assert(keycodes::is_name(i, word) && keycodes::is_name(k, word));
                one_key(i, k, word);
            } else {
                underscore_spells_nothing(k);
                one_key(i, k, names);
            }
        },
        None => {
            let i = keycodes::first_name(names, 0)->0;
            one_key(i, k, names);
        },
    }
}

/// A text that reads as a code spells the key with that code, which is listed.
pub proof fn a_named_code_is_listed(s: Seq<char>, code: u16)
    requires
        keycodes::named(s) == Some(code),
    ensures
        exists|k: int|
            0 <= k < COUNT && #[trigger] keycodes::spells(input::trimmed(s), k) && ROWS@[k].0 == code,
        keycodes::first_code(code, 0) is Some,
{
    let word = input::trimmed(s);
    let names = keycodes::canonical(word);
    first_alias_is_one(word, 0);
    first_name_is_one(names, 0);
    let k = match keycodes::first_alias(word, 0) {
        Some(i) => i,
        None => keycodes::first_name(names, 0)->0,
    };
    every_code_is_found(k);
    if !keycodes::is_alias(k, word) && !keycodes::is_alias(k, names) {
        let name = ROWS@[k].1@;
        let text = input::replaced(input::uppered(word), '-', '_');
        names_are_plain(k, 0);
        assert(names == name.skip(3));
        if text == names {
            assert(keycodes::writes(word, name.skip(3))) by {
                spelled_out(word, name.skip(3));
            }
        } else {
            assert(text =~= name) by {
                assert(text.skip(3) == names);
                assert forall|p: int| 0 <= p < text.len() implies text[p] == name[p] by {
                    if p >= 3 {
                        assert(text[p] == text.skip(3)[p - 3]);
                        assert(name[p] == name.skip(3)[p - 3]);
                    }
                }
            }
            spelled_out(word, name);
        }
    }
    assert(keycodes::spells(word, k));
}

/// A word that becomes `name` in upper case and with underscores writes it.
proof fn spelled_out(word: Seq<char>, name: Seq<char>)
    requires
        input::replaced(input::uppered(word), '-', '_') == name,
    ensures
        keycodes::writes(word, name),
{
    let upper = input::uppered(word);
    let text = input::replaced(upper, '-', '_');
    assert(text.len() == word.len());
    assert forall|p: int| 0 <= p < word.len() implies input::upper(#[trigger] word[p]) == name[p] || (word[p] == '-'
        && name[p] == '_') by {
        assert(upper[p] == input::upper(word[p]));
        assert(text[p] == name[p]);
    }
}

/// The canonical name of a key reads back as the key's code.
pub proof fn every_name_round_trips(k: int)
    requires
        0 <= k < COUNT,
    ensures
        keycodes::named(ROWS@[k].1@) == Some(ROWS@[k].0),
{
    let name = ROWS@[k].1@;
    assert forall|p: int| 0 <= p < name.len() implies input::upper(#[trigger] name[p]) == name[p] by {
        names_are_plain(k, p);
    }
    assert(keycodes::writes(name, name));
    every_spelling_resolves(Seq::empty(), name, Seq::empty(), k);
    assert(Seq::<char>::empty() + name + Seq::<char>::empty() =~= name);
}

/// Every other spelling of a key reads as the key's code.
pub proof fn every_alias_resolves(k: int, j: int)
    requires
        0 <= k < COUNT,
        0 <= j < 3,
        keycodes::spelled(ROWS@[k].3@[j]),
    ensures
        keycodes::named(ROWS@[k].3@[j]@) == Some(ROWS@[k].0),
{
    let word = ROWS@[k].3@[j]@;
    assert(keycodes::is_alias(k, word));
    every_spelling_resolves(Seq::empty(), word, Seq::empty(), k);
    assert(Seq::<char>::empty() + word + Seq::<char>::empty() =~= word);
}

proof fn same_first_alias(a: Seq<char>, b: Seq<char>, i: int)
    requires
        input::same_letters(a, b),
        0 <= i,
    ensures
        keycodes::first_alias(a, i) == keycodes::first_alias(b, i),
    decreases COUNT - i,
{
    if i < COUNT {
        assert(keycodes::is_alias(i, a) == keycodes::is_alias(i, b));
        same_first_alias(a, b, i + 1);
    }
}

/// Letter case does not matter in the name of a key.
pub proof fn letter_case_does_not_matter(a: Seq<char>, b: Seq<char>)
    requires
        input::same_letters(a, b),
    ensures
        keycodes::named(a) == keycodes::named(b),
{
    input::trimming_keeps_letters(a, b);
    same_first_alias(input::trimmed(a), input::trimmed(b), 0);
    input::same_in_upper_case(input::trimmed(a), input::trimmed(b));
}

/// A listed code is described by its name and itself, and labelled by its short
/// name; any other code is shown as itself, which reads back.
pub proof fn listed_codes_are_told_by_name(k: int, code: u16)
    requires
        0 <= k < COUNT,
    ensures
        code == ROWS@[k].0 ==> {
            &&& keycodes::described(code) == ROWS@[k].1@ + " ("@ + keycodes::hex_text(code) + ")"@
            &&& keycodes::label(code) == ROWS@[k].2@
        },
        (forall|i: int| 0 <= i < COUNT ==> (#[trigger] ROWS@[i]).0 != code) ==> {
            &&& keycodes::label(code) == keycodes::hex_text(code)
            &&& keycodes::described(code) == keycodes::hex_text(code) + " (no name — quantum keycode?)"@
        },
        input::number(keycodes::hex_text(code), u16::MAX as nat) == Some(code as nat),
{
    every_code_is_found(k);
    crate::clackctl::parse::shown_codes_read_back(code);
    if forall|i: int| 0 <= i < COUNT ==> (#[trigger] ROWS@[i]).0 != code {
        unlisted_from(code, 0);
    }
}

proof fn unlisted_from(code: u16, i: int)
    requires
        0 <= i <= COUNT,
        forall|j: int| 0 <= j < COUNT ==> (#[trigger] ROWS@[j]).0 != code,
    ensures
        keycodes::first_code(code, i) is None,
    decreases COUNT - i,
{
    if i < COUNT {
        assert(ROWS@[i].0 != code);
        unlisted_from(code, i + 1);
    }
}

/// The letter keys are numbered from 4 on, in the order of the alphabet, and the
/// digit keys from 0x1E on, with 0 behind 9; each is named and labelled by its
/// character, and found under it, for letters in either case.
pub proof fn letters_and_digits_are_in_order(c: char)
    ensures
        'A' <= c <= 'Z' ==> {
            let k = 2 + c as int - 'A' as int;
            &&& ROWS@[k].0 == 4 + c as int - 'A' as int
            &&& ROWS@[k].1@ == "KC_"@.push(c)
            &&& ROWS@[k].2@ == seq![c]
            &&& keycodes::named(seq![c]) == Some(ROWS@[k].0)
            &&& keycodes::named(seq![input::lower(c)]) == Some(ROWS@[k].0)
        },
        '0' <= c <= '9' ==> {
            let k = if c == '0' {
                37
            } else {
                27 + c as int - '0' as int
            };
            &&& ROWS@[k].0 == if c == '0' { 0x27 } else { 0x1D + c as int - '0' as int }
            &&& ROWS@[k].1@ == "KC_"@.push(c)
            &&& ROWS@[k].2@ == seq![c]
            &&& keycodes::named(seq![c]) == Some(ROWS@[k].0)
        },
{
    reveal_strlit("KC_");
    if 'A' <= c <= 'Z' {
        let k = 2 + c as int - 'A' as int;
        letter_row(c);
        single_character_names(c, c, k);
        single_character_names(input::lower(c), c, k);
    }
    if '0' <= c <= '9' {
        let k = if c == '0' {
            37
        } else {
            27 + c as int - '0' as int
        };
        digit_row(c);
        single_character_names(c, c, k);
    }
}

proof fn single_character_names(word: char, c: char, k: int)
    requires
        0 <= k < COUNT,
        ROWS@[k].1@ == "KC_"@.push(c),
        input::upper(word) == c,
    ensures
        keycodes::named(seq![word]) == Some(ROWS@[k].0),
{
    reveal_strlit("KC_");
    let name = ROWS@[k].1@;
    assert(name.skip(3) =~= seq![c]);
    assert(keycodes::writes(seq![word], name.skip(3)));
    every_spelling_resolves(Seq::empty(), seq![word], Seq::empty(), k);
    assert(Seq::<char>::empty() + seq![word] + Seq::<char>::empty() =~= seq![word]);
}

proof fn letter_row(c: char)
    requires
        'A' <= c <= 'Z',
    ensures
        ({
            let k = 2 + c as int - 'A' as int;
            &&& ROWS@[k].0 == 4 + c as int - 'A' as int
            &&& ROWS@[k].1@ == "KC_"@.push(c)
            &&& ROWS@[k].2@ == seq![c]
        }),
{
    reveal_strlit("KC_");
    reveal_strlit("KC_A");
    reveal_strlit("KC_B");
    reveal_strlit("KC_C");
    reveal_strlit("KC_D");
    reveal_strlit("KC_E");
    reveal_strlit("KC_F");
    reveal_strlit("KC_G");
    reveal_strlit("KC_H");
    reveal_strlit("KC_I");
    reveal_strlit("KC_J");
    reveal_strlit("KC_K");
    reveal_strlit("KC_L");
    reveal_strlit("KC_M");
    reveal_strlit("KC_N");
    reveal_strlit("KC_O");
    reveal_strlit("KC_P");
    reveal_strlit("KC_Q");
    reveal_strlit("KC_R");
    reveal_strlit("KC_S");
    reveal_strlit("KC_T");
    reveal_strlit("KC_U");
    reveal_strlit("KC_V");
    reveal_strlit("KC_W");
    reveal_strlit("KC_X");
    reveal_strlit("KC_Y");
    reveal_strlit("KC_Z");
    reveal_strlit("A");
    reveal_strlit("B");
    reveal_strlit("C");
    reveal_strlit("D");
    reveal_strlit("E");
    reveal_strlit("F");
    reveal_strlit("G");
    reveal_strlit("H");
    reveal_strlit("I");
    reveal_strlit("J");
    reveal_strlit("K");
    reveal_strlit("L");
    reveal_strlit("M");
    reveal_strlit("N");
    reveal_strlit("O");
    reveal_strlit("P");
    reveal_strlit("Q");
    reveal_strlit("R");
    reveal_strlit("S");
    reveal_strlit("T");
    reveal_strlit("U");
    reveal_strlit("V");
    reveal_strlit("W");
    reveal_strlit("X");
    reveal_strlit("Y");
    reveal_strlit("Z");
    let k = 2 + c as int - 'A' as int;
    let name = ROWS@[k].1@;
    let label = ROWS@[k].2@;
    assert(name.len() == 4 && name[0] == 'K' && name[1] == 'C' && name[2] == '_' && name[3] == c);
    assert(label.len() == 1 && label[0] == c);
    assert(name =~= "KC_"@.push(c));
    assert(label =~= seq![c]);
}

proof fn digit_row(c: char)
    requires
        '0' <= c <= '9',
    ensures
        ({
            let k = if c == '0' {
                37
            } else {
                27 + c as int - '0' as int
            };
            &&& ROWS@[k].0 == if c == '0' { 0x27 } else { 0x1D + c as int - '0' as int }
            &&& ROWS@[k].1@ == "KC_"@.push(c)
            &&& ROWS@[k].2@ == seq![c]
        }),
{
    reveal_strlit("KC_");
    reveal_strlit("KC_0");
    reveal_strlit("KC_1");
    reveal_strlit("KC_2");
    reveal_strlit("KC_3");
    reveal_strlit("KC_4");
    reveal_strlit("KC_5");
    reveal_strlit("KC_6");
    reveal_strlit("KC_7");
    reveal_strlit("KC_8");
    reveal_strlit("KC_9");
    reveal_strlit("0");
    reveal_strlit("1");
    reveal_strlit("2");
    reveal_strlit("3");
    reveal_strlit("4");
    reveal_strlit("5");
    reveal_strlit("6");
    reveal_strlit("7");
    reveal_strlit("8");
    reveal_strlit("9");
    let k = if c == '0' {
        37
    } else {
        27 + c as int - '0' as int
    };
    let name = ROWS@[k].1@;
    let label = ROWS@[k].2@;
    assert(name.len() == 4 && name[0] == 'K' && name[1] == 'C' && name[2] == '_' && name[3] == c);
    assert(label.len() == 1 && label[0] == c);
    assert(name =~= "KC_"@.push(c));
    assert(label =~= seq![c]);
}

/// The other spellings of a key are those places of its row that are not empty.
pub proof fn other_spellings_are_those_written(i: int, j: int, a: &'static str)
    requires
        0 <= i < COUNT,
    ensures
        0 <= j < 3 && ROWS@[i].3@[j]@.len() > 0 ==> keycodes::aliases(i).contains(ROWS@[i].3@[j]),
        keycodes::aliases(i).contains(a) ==> a@.len() > 0 && ROWS@[i].3@.contains(a),
        keycodes::aliases(i).len() <= 3,
{
    broadcast use vstd::seq_lib::group_filter_ensures;

    let all = ROWS@[i].3@;
    let others = keycodes::aliases(i);
    if 0 <= j < 3 && all[j]@.len() > 0 {
        assert(keycodes::spelled(all[j]));
        assert(others.contains(all[j]));
    }
    if others.contains(a) {
        let p = choose|p: int| 0 <= p < others.len() && others[p] == a;
        assert(keycodes::spelled(others[p]));
        all.lemma_filter_contains_rev(|x: &'static str| keycodes::spelled(x), a);
    }
}

} // verus!
