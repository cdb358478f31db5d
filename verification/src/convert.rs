//! Traditional-to-Simplified Chinese conversion for ASR output.
//!
//! A curated single-character table covers the traditional characters that
//! a Mandarin speech recogniser most often emits; characters outside the
//! table are kept as they are. The character 乾 is decided by context: it
//! stays 乾 in its qián readings (乾隆, 乾坤, 乾卦, 乾陵, 乾县) and becomes 干
//! elsewhere. Afterwards every character except full-width CJK punctuation
//! is put into Unicode NFKC form.

use unicode_normalization::UnicodeNormalization;
use vstd::prelude::*;
use crate::text::{chars_of, push_chars, string_from_chars, views};

verus! {

/// The conversion table: the simplified form of each traditional character
/// it lists. 乾 is not listed; its two readings are told apart by context.
pub open spec fn simplified_form(c: char) -> Option<char> {
    match c {
        // 高频虚词 / 介词 / 连词
        '關' => Some('关'), '於' => Some('于'), '這' => Some('这'), '個' => Some('个'),
        '們' => Some('们'), '來' => Some('来'), '時' => Some('时'), '會' => Some('会'),
        '對' => Some('对'), '為' => Some('为'), '從' => Some('从'), '說' => Some('说'),
        '話' => Some('话'), '麼' => Some('么'), '嗎' => Some('吗'), '過' => Some('过'),
        '還' => Some('还'), '沒' => Some('没'), '讓' => Some('让'), '給' => Some('给'),
        '請' => Some('请'), '應' => Some('应'), '該' => Some('该'), '當' => Some('当'),
        '將' => Some('将'), '與' => Some('与'), '並' => Some('并'),
        // 高频名词 / 动词
        '雲' => Some('云'), '電' => Some('电'), '腦' => Some('脑'), '網' => Some('网'),
        '絡' => Some('络'), '語' => Some('语'), '識' => Some('识'), '別' => Some('别'),
        '訊' => Some('讯'), '記' => Some('记'), '錄' => Some('录'), '頻' => Some('频'),
        '據' => Some('据'), '務' => Some('务'), '數' => Some('数'), '處' => Some('处'), '變' => Some('变'), '換' => Some('换'),
        '測' => Some('测'), '試' => Some('试'), '結' => Some('结'), '問' => Some('问'),
        '題' => Some('题'), '寫' => Some('写'), '讀' => Some('读'), '聽' => Some('听'),
        '見' => Some('见'), '視' => Some('视'), '覺' => Some('觉'), '聲' => Some('声'),
        '畫' => Some('画'), '圖' => Some('图'), '攝' => Some('摄'),
        '檔' => Some('档'), '頁' => Some('页'), '張' => Some('张'), '體' => Some('体'),
        '積' => Some('积'), '樣' => Some('样'), '種' => Some('种'), '類' => Some('类'),
        '項' => Some('项'), '標' => Some('标'), '準' => Some('准'), '單' => Some('单'),
        '雙' => Some('双'), '長' => Some('长'), '寬' => Some('宽'),
        '淺' => Some('浅'), '輕' => Some('轻'), '軟' => Some('软'), '遠' => Some('远'),
        '後' => Some('后'), '裡' => Some('里'), '內' => Some('内'),
        '間' => Some('间'), '邊' => Some('边'), '頂' => Some('顶'), '頭' => Some('头'),
        // 技术 / 现代词汇
        '碼' => Some('码'), '編' => Some('编'), '譯' => Some('译'), '設' => Some('设'),
        '計' => Some('计'), '機' => Some('机'), '構' => Some('构'), '組' => Some('组'),
        '層' => Some('层'), '級' => Some('级'), '線' => Some('线'), '纜' => Some('缆'),
        '總' => Some('总'), '傳' => Some('传'), '輸' => Some('输'), '發' => Some('发'),
        '開' => Some('开'), '啟' => Some('启'), '閉' => Some('闭'), '運' => Some('运'),
        '進' => Some('进'), '離' => Some('离'), '連' => Some('连'), '斷' => Some('断'),
        '續' => Some('续'), '載' => Some('载'), '儲' => Some('储'), '備' => Some('备'),
        '刪' => Some('删'), '舊' => Some('旧'), '創' => Some('创'), '減' => Some('减'),
        '餘' => Some('余'), '萬' => Some('万'), '億' => Some('亿'), '負' => Some('负'),
        // 字幕 / 视频 / 媒体
        '場' => Some('场'), '鏡' => Some('镜'), '輯' => Some('辑'), '製' => Some('制'),
        '導' => Some('导'), '員' => Some('员'), '樂' => Some('乐'), '詞' => Some('词'),
        '劇' => Some('剧'), '節' => Some('节'), '臺' => Some('台'), '灣' => Some('湾'),
        '陸' => Some('陆'),
        // 常用动词 / 形容词补充
        '講' => Some('讲'), '辦' => Some('办'), '幫' => Some('帮'), '護' => Some('护'),
        '愛' => Some('爱'), '歡' => Some('欢'), '傷' => Some('伤'), '壞' => Some('坏'),
        '實' => Some('实'), '虛' => Some('虚'), '滿' => Some('满'),
        '淨' => Some('净'), '髒' => Some('脏'), '紅' => Some('红'), '綠' => Some('绿'),
        '藍' => Some('蓝'), '黃' => Some('黄'),
        // 乾/發/幹/裏 家族补充：髮→发（头发）、幹→干（干活）、裏→里（里面）。
        // 注意：乾 不在表中——它是多对一误转的源头，改由 t2s 按上下文判断。
        '髮' => Some('发'), '幹' => Some('干'), '裏' => Some('里'),
        // 时间 / 数量
        '週' => Some('周'), '點' => Some('点'), '鐘' => Some('钟'),
        // 教育 / 人物 / 称谓
        '國' => Some('国'), '學' => Some('学'), '習' => Some('习'), '師' => Some('师'),
        '醫' => Some('医'), '藝' => Some('艺'), '術' => Some('术'), '業' => Some('业'),
        '專' => Some('专'), '職' => Some('职'), '課' => Some('课'), '書' => Some('书'),
        // 社会 / 自然 / 环境
        '眾' => Some('众'), '廣' => Some('广'), '廠' => Some('厂'), '東' => Some('东'),
        '門' => Some('门'), '陽' => Some('阳'), '陰' => Some('阴'), '氣' => Some('气'),
        '風' => Some('风'), '園' => Some('园'), '團' => Some('团'), '隊' => Some('队'),
        '戰' => Some('战'), '爭' => Some('争'), '報' => Some('报'), '紙' => Some('纸'),
        '車' => Some('车'), '飛' => Some('飞'), '聞' => Some('闻'),
        // 经济 / 交易 / 生活
        '價' => Some('价'), '錢' => Some('钱'), '銀' => Some('银'), '買' => Some('买'),
        '賣' => Some('卖'), '購' => Some('购'), '賬' => Some('账'), '戶' => Some('户'),
        '郵' => Some('邮'), '號' => Some('号'), '鍵' => Some('键'), '盤' => Some('盘'),
        '條' => Some('条'), '產' => Some('产'), '質' => Some('质'), '優' => Some('优'),
        '帶' => Some('带'), '傘' => Some('伞'), '熱' => Some('热'),
        // 状态 / 规则 / 关系
        '驗' => Some('验'), '觀' => Some('观'), '確' => Some('确'), '際' => Some('际'),
        '聯' => Some('联'), '係' => Some('系'), '統' => Some('统'), '規' => Some('规'),
        '則' => Some('则'), '資' => Some('资'), '隱' => Some('隐'), '權' => Some('权'),
        '態' => Some('态'), '環' => Some('环'), '監' => Some('监'), '動' => Some('动'),
        // 健康 / 训练
        '練' => Some('练'), '訓' => Some('训'), '療' => Some('疗'), '藥' => Some('药'),
        '鍛' => Some('锻'), '煉' => Some('炼'), '慶' => Some('庆'),
        // 多对一安全义项：复(複/復)、历(曆/歷)、只(隻)、斗(鬥)、面(麵)、几(幾)、谷(穀)
        '複' => Some('复'), '復' => Some('复'), '曆' => Some('历'), '歷' => Some('历'),
        '隻' => Some('只'), '鬥' => Some('斗'), '麵' => Some('面'), '幾' => Some('几'),
        '穀' => Some('谷'),
        _ => None,
    }
}

/// Looks `c` up in the conversion table (the arms are those of
/// `simplified_form`).
pub fn table_lookup(c: char) -> (r: Option<char>)
    ensures
        r == simplified_form(c),
{
    match c {
        '關' => Some('关'), '於' => Some('于'), '這' => Some('这'), '個' => Some('个'),
        '們' => Some('们'), '來' => Some('来'), '時' => Some('时'), '會' => Some('会'),
        '對' => Some('对'), '為' => Some('为'), '從' => Some('从'), '說' => Some('说'),
        '話' => Some('话'), '麼' => Some('么'), '嗎' => Some('吗'), '過' => Some('过'),
        '還' => Some('还'), '沒' => Some('没'), '讓' => Some('让'), '給' => Some('给'),
        '請' => Some('请'), '應' => Some('应'), '該' => Some('该'), '當' => Some('当'),
        '將' => Some('将'), '與' => Some('与'), '並' => Some('并'),
        '雲' => Some('云'), '電' => Some('电'), '腦' => Some('脑'), '網' => Some('网'),
        '絡' => Some('络'), '語' => Some('语'), '識' => Some('识'), '別' => Some('别'),
        '訊' => Some('讯'), '記' => Some('记'), '錄' => Some('录'), '頻' => Some('频'),
        '據' => Some('据'), '務' => Some('务'), '數' => Some('数'), '處' => Some('处'), '變' => Some('变'), '換' => Some('换'),
        '測' => Some('测'), '試' => Some('试'), '結' => Some('结'), '問' => Some('问'),
        '題' => Some('题'), '寫' => Some('写'), '讀' => Some('读'), '聽' => Some('听'),
        '見' => Some('见'), '視' => Some('视'), '覺' => Some('觉'), '聲' => Some('声'),
        '畫' => Some('画'), '圖' => Some('图'), '攝' => Some('摄'),
        '檔' => Some('档'), '頁' => Some('页'), '張' => Some('张'), '體' => Some('体'),
        '積' => Some('积'), '樣' => Some('样'), '種' => Some('种'), '類' => Some('类'),
        '項' => Some('项'), '標' => Some('标'), '準' => Some('准'), '單' => Some('单'),
        '雙' => Some('双'), '長' => Some('长'), '寬' => Some('宽'),
        '淺' => Some('浅'), '輕' => Some('轻'), '軟' => Some('软'), '遠' => Some('远'),
        '後' => Some('后'), '裡' => Some('里'), '內' => Some('内'),
        '間' => Some('间'), '邊' => Some('边'), '頂' => Some('顶'), '頭' => Some('头'),
        '碼' => Some('码'), '編' => Some('编'), '譯' => Some('译'), '設' => Some('设'),
        '計' => Some('计'), '機' => Some('机'), '構' => Some('构'), '組' => Some('组'),
        '層' => Some('层'), '級' => Some('级'), '線' => Some('线'), '纜' => Some('缆'),
        '總' => Some('总'), '傳' => Some('传'), '輸' => Some('输'), '發' => Some('发'),
        '開' => Some('开'), '啟' => Some('启'), '閉' => Some('闭'), '運' => Some('运'),
        '進' => Some('进'), '離' => Some('离'), '連' => Some('连'), '斷' => Some('断'),
        '續' => Some('续'), '載' => Some('载'), '儲' => Some('储'), '備' => Some('备'),
        '刪' => Some('删'), '舊' => Some('旧'), '創' => Some('创'), '減' => Some('减'),
        '餘' => Some('余'), '萬' => Some('万'), '億' => Some('亿'), '負' => Some('负'),
        '場' => Some('场'), '鏡' => Some('镜'), '輯' => Some('辑'), '製' => Some('制'),
        '導' => Some('导'), '員' => Some('员'), '樂' => Some('乐'), '詞' => Some('词'),
        '劇' => Some('剧'), '節' => Some('节'), '臺' => Some('台'), '灣' => Some('湾'),
        '陸' => Some('陆'),
        '講' => Some('讲'), '辦' => Some('办'), '幫' => Some('帮'), '護' => Some('护'),
        '愛' => Some('爱'), '歡' => Some('欢'), '傷' => Some('伤'), '壞' => Some('坏'),
        '實' => Some('实'), '虛' => Some('虚'), '滿' => Some('满'),
        '淨' => Some('净'), '髒' => Some('脏'), '紅' => Some('红'), '綠' => Some('绿'),
        '藍' => Some('蓝'), '黃' => Some('黄'),
        '髮' => Some('发'), '幹' => Some('干'), '裏' => Some('里'),
        '週' => Some('周'), '點' => Some('点'), '鐘' => Some('钟'),
        '國' => Some('国'), '學' => Some('学'), '習' => Some('习'), '師' => Some('师'),
        '醫' => Some('医'), '藝' => Some('艺'), '術' => Some('术'), '業' => Some('业'),
        '專' => Some('专'), '職' => Some('职'), '課' => Some('课'), '書' => Some('书'),
        '眾' => Some('众'), '廣' => Some('广'), '廠' => Some('厂'), '東' => Some('东'),
        '門' => Some('门'), '陽' => Some('阳'), '陰' => Some('阴'), '氣' => Some('气'),
        '風' => Some('风'), '園' => Some('园'), '團' => Some('团'), '隊' => Some('队'),
        '戰' => Some('战'), '爭' => Some('争'), '報' => Some('报'), '紙' => Some('纸'),
        '車' => Some('车'), '飛' => Some('飞'), '聞' => Some('闻'),
        '價' => Some('价'), '錢' => Some('钱'), '銀' => Some('银'), '買' => Some('买'),
        '賣' => Some('卖'), '購' => Some('购'), '賬' => Some('账'), '戶' => Some('户'),
        '郵' => Some('邮'), '號' => Some('号'), '鍵' => Some('键'), '盤' => Some('盘'),
        '條' => Some('条'), '產' => Some('产'), '質' => Some('质'), '優' => Some('优'),
        '帶' => Some('带'), '傘' => Some('伞'), '熱' => Some('热'),
        '驗' => Some('验'), '觀' => Some('观'), '確' => Some('确'), '際' => Some('际'),
        '聯' => Some('联'), '係' => Some('系'), '統' => Some('统'), '規' => Some('规'),
        '則' => Some('则'), '資' => Some('资'), '隱' => Some('隐'), '權' => Some('权'),
        '態' => Some('态'), '環' => Some('环'), '監' => Some('监'), '動' => Some('动'),
        '練' => Some('练'), '訓' => Some('训'), '療' => Some('疗'), '藥' => Some('药'),
        '鍛' => Some('锻'), '煉' => Some('炼'), '慶' => Some('庆'),
        '複' => Some('复'), '復' => Some('复'), '曆' => Some('历'), '歷' => Some('历'),
        '隻' => Some('只'), '鬥' => Some('斗'), '麵' => Some('面'), '幾' => Some('几'),
        '穀' => Some('谷'),
        _ => None,
    }
}

/// Characters after which 乾 is read qián and therefore kept.
pub open spec fn is_qian_next(c: char) -> bool {
    c == '隆' || c == '坤' || c == '卦' || c == '陵' || c == '县'
}

fn qian_next(c: char) -> (r: bool)
    ensures
        r == is_qian_next(c),
{
    c == '隆' || c == '坤' || c == '卦' || c == '陵' || c == '县'
}

/// Full-width CJK punctuation, which NFKC would flatten to ASCII and which
/// is therefore left out of normalisation. Full-width digits and Latin
/// letters are not in this set.
pub open spec fn cjk_punct(c: char) -> bool {
    ||| ('\u{3000}' <= c && c <= '\u{303f}')
    ||| ('\u{ff01}' <= c && c <= '\u{ff0f}')
    ||| ('\u{ff1a}' <= c && c <= '\u{ff20}')
    ||| ('\u{ff3b}' <= c && c <= '\u{ff40}')
    ||| ('\u{ff5b}' <= c && c <= '\u{ff60}')
    ||| ('\u{ffe0}' <= c && c <= '\u{ffe6}')
}

/// Whether `c` is full-width CJK punctuation.
pub fn is_cjk_punct(c: char) -> (r: bool)
    ensures
        r == cjk_punct(c),
{
    ('\u{3000}' <= c && c <= '\u{303f}') || ('\u{ff01}' <= c && c <= '\u{ff0f}')
        || ('\u{ff1a}' <= c && c <= '\u{ff20}') || ('\u{ff3b}' <= c && c <= '\u{ff40}')
        || ('\u{ff5b}' <= c && c <= '\u{ff60}') || ('\u{ffe0}' <= c && c <= '\u{ffe6}')
}

/// The simplified character chosen for position `i` of `s`.
pub open spec fn convert_at(s: Seq<char>, i: int) -> char {
    let c = s[i];
    if c == '乾' {
        if i + 1 < s.len() && is_qian_next(s[i + 1]) {
            '乾'
        } else {
            '干'
        }
    } else {
        match simplified_form(c) {
            Some(d) => d,
            None => c,
        }
    }
}

/// Character-by-character Traditional-to-Simplified conversion of `s`.
pub open spec fn convert_chars(s: Seq<char>) -> Seq<char> {
    Seq::new(s.len(), |i: int| convert_at(s, i))
}

/// The NFKC form of the one-character string `c`, as the
/// `unicode-normalization` crate computes it.
pub uninterp spec fn nfkc_of(c: char) -> Seq<char>;

/// What normalisation makes of one character: CJK punctuation stays, every
/// other character is replaced by its NFKC form.
pub open spec fn normalize_char(c: char) -> Seq<char> {
    if cjk_punct(c) {
        seq![c]
    } else {
        nfkc_of(c)
    }
}

/// Per-character normalisation of `s`.
pub open spec fn normalize(s: Seq<char>) -> Seq<char>
    decreases s.len(),
{
    if s.len() == 0 {
        seq![]
    } else {
        normalize(s.drop_last()) + normalize_char(s.last())
    }
}

/// What normalisation makes of `cs` given the NFKC form `forms[i]` of each
/// character `cs[i]`: CJK punctuation stays, every other character is
/// replaced by its form (by nothing where no form is given).
pub open spec fn assembled(cs: Seq<char>, forms: Seq<Seq<char>>) -> Seq<char>
    decreases cs.len(),
{
    if cs.len() == 0 {
        seq![]
    } else {
        let i = cs.len() - 1;
        assembled(cs.drop_last(), forms) + if cjk_punct(cs[i]) {
            seq![cs[i]]
        } else if i < forms.len() {
            forms[i]
        } else {
            seq![]
        }
    }
}

/// Joins the normalised characters: each CJK punctuation character of
/// `chars` as it is, each other character replaced by its NFKC form from
/// `forms`.
pub fn assemble_normalized(chars: &Vec<char>, forms: &Vec<Vec<char>>) -> (r: String)
    ensures
        r@ == assembled(chars@, views(forms@)),
{
    let n = chars.len();
    let mut out: Vec<char> = Vec::new();
    let mut i: usize = 0;
    while i < n
        invariant
            n == chars@.len(),
            i <= n,
            out@ == assembled(chars@.take(i as int), views(forms@)),
        decreases n - i,
    {
        let c = chars[i];
        if is_cjk_punct(c) {
            out.push(c);
        } else if i < forms.len() {
            push_chars(&mut out, &forms[i]);
        }
        assert(chars@.take(i + 1).drop_last() =~= chars@.take(i as int));
        i = i + 1;
    }
    assert(chars@.take(n as int) =~= chars@);
    string_from_chars(out.as_slice())
}

proof fn lemma_assembled_normalize(cs: Seq<char>, forms: Seq<Seq<char>>)
    requires
        forms.len() == cs.len(),
        forall|k: int| 0 <= k < cs.len() && !cjk_punct(cs[k]) ==> #[trigger] forms[k] == nfkc_of(cs[k]),
    ensures
        assembled(cs, forms) == normalize(cs),
{
    lemma_assembled_normalize_prefix(cs, forms);
}

proof fn lemma_assembled_normalize_prefix(cs: Seq<char>, forms: Seq<Seq<char>>)
    requires
        forms.len() >= cs.len(),
        forall|k: int| 0 <= k < cs.len() && !cjk_punct(cs[k]) ==> #[trigger] forms[k] == nfkc_of(cs[k]),
    ensures
        assembled(cs, forms) == normalize(cs),
    decreases cs.len(),
{
    if cs.len() > 0 {
        let c0 = cs.drop_last();
        assert forall|k: int| 0 <= k < c0.len() && !cjk_punct(c0[k]) implies #[trigger] forms[k] == nfkc_of(c0[k]) by {
            assert(c0[k] == cs[k]);
        }
        lemma_assembled_normalize_prefix(c0, forms);
    }
}

/// Whether `c` is in the block of CJK Unified Ideographs, U+4E00 to U+9FFF.
pub open spec fn cjk_unified(c: char) -> bool {
    '\u{4e00}' <= c && c <= '\u{9fff}'
}

/// Calls `UnicodeNormalization::nfkc` of the `unicode-normalization` crate on
/// one character and collects the characters it yields. The contract names
/// the result, a function of `c` alone, and states one fact of the crate's
/// tables: no CJK Unified Ideograph has a canonical or compatibility
/// decomposition or starts a composition, so NFKC leaves it as it is.
#[verifier::external_body]
fn nfkc_char(c: char) -> (r: Vec<char>)
    ensures
        r@ == nfkc_of(c),
        cjk_unified(c) ==> r@ == seq![c],
{
    c.nfkc().collect()
}

/// Converts Traditional Chinese characters of `input` to Simplified Chinese
/// and normalises the result to NFKC, keeping full-width CJK punctuation.
///
/// Where normalisation leaves every character of `input` as it is (each is
/// CJK punctuation or its own NFKC form), the result is the plain
/// conversion of `input`: as long as `input`, left as it is by another
/// conversion and by normalisation, so converting it again changes nothing.
pub fn t2s(input: &str) -> (r: String)
    ensures
        r@ == normalize(convert_chars(input@)),
        normalization_fixed(input@) ==> {
            &&& r@ == convert_chars(input@)
            &&& r@.len() == input@.len()
            &&& convert_chars(r@) == r@
            &&& normalization_fixed(r@)
        },
{
    let chars = chars_of(input);
    let n = chars.len();
    let mut out: Vec<char> = Vec::new();
    let mut i: usize = 0;
    while i < n
        invariant
            n == chars@.len(),
            chars@ == input@,
            i <= n,
            out@ == convert_chars(chars@).take(i as int),
        decreases n - i,
    {
        let ch = chars[i];
        if ch == '乾' {
            if i + 1 < n && qian_next(chars[i + 1]) {
                out.push(ch);
            } else {
                out.push('干');
            }
        } else {
            match table_lookup(ch) {
                Some(simp) => out.push(simp),
                None => out.push(ch),
            }
        }
        assert(out@ =~= convert_chars(chars@).take(i + 1));
        i = i + 1;
    }
    assert(out@ =~= convert_chars(chars@));
    let mut forms: Vec<Vec<char>> = Vec::new();
    let mut j: usize = 0;
    while j < n
        invariant
            n == out@.len(),
            j <= n,
            forms@.len() == j,
            forall|k: int| 0 <= k < j && !cjk_punct(out@[k]) ==> #[trigger] forms@[k]@ == nfkc_of(out@[k]),
            forall|k: int| 0 <= k < j && !cjk_punct(out@[k]) && cjk_unified(out@[k]) ==> nfkc_of(#[trigger] out@[k]) == seq![out@[k]],
        decreases n - j,
    {
        if is_cjk_punct(out[j]) {
            forms.push(Vec::new());
        } else {
            forms.push(nfkc_char(out[j]));
        }
        j = j + 1;
    }
    proof {
        if normalization_fixed(input@) {
            assert forall|i: int| 0 <= i < out@.len() implies cjk_punct(#[trigger] out@[i]) || nfkc_of(out@[i]) == seq![out@[i]] by {
                let c = input@[i];
                assert(out@[i] == convert_at(input@, i));
                lemma_table_forms_ideographs(c);
                if out@[i] != c {
                    assert(cjk_unified(out@[i]));
                }
            }
            lemma_normalize_fixed(out@);
            lemma_convert_idempotent(input@);
        }
        assert forall|k: int| 0 <= k < out@.len() && !cjk_punct(out@[k]) implies #[trigger] views(forms@)[k] == nfkc_of(out@[k]) by {
            assert(views(forms@)[k] == forms@[k]@);
        }
        lemma_assembled_normalize(out@, views(forms@));
    }
    assemble_normalized(&out, &forms)
}

/// Conversion works character by character: the result is as long as the
/// input.
pub proof fn lemma_convert_preserves_length(s: Seq<char>)
    ensures
        convert_chars(s).len() == s.len(),
{
}

/// Conversion is local: converting two texts one after the other gives the
/// conversion of the joined text, except where the first ends with 乾 and
/// the second starts with a character that makes it read qián.
pub proof fn lemma_convert_concat(a: Seq<char>, b: Seq<char>)
    requires
        !(a.len() > 0 && a.last() == '乾' && b.len() > 0 && is_qian_next(b[0])),
    ensures
        convert_chars(a + b) == convert_chars(a) + convert_chars(b),
{
    let ab = a + b;
    assert forall|i: int| 0 <= i < ab.len() implies #[trigger] convert_at(ab, i) == (convert_chars(a)
        + convert_chars(b))[i] by {
        if i < a.len() {
            assert(ab[i] == a[i]);
            if i + 1 < a.len() {
                assert(ab[i + 1] == a[i + 1]);
            } else if a[i] == '乾' && b.len() > 0 {
                assert(ab[i + 1] == b[0]);
            }
        } else {
            assert(ab[i] == b[i - a.len()]);
            if i + 1 < ab.len() {
                assert(ab[i + 1] == b[i + 1 - a.len()]);
            }
        }
    }
    assert(convert_chars(a + b) =~= convert_chars(a) + convert_chars(b));
}

/// Whether conversion leaves `c` as it is: it is neither 乾 nor listed in the
/// table.
pub open spec fn kept_as_is(c: char) -> bool {
    c != '乾' && simplified_form(c) is None
}

/// Characters the table does not change (Simplified characters among them)
/// are kept: a text made only of such characters is left as it is.
pub proof fn lemma_unlisted_chars_kept(s: Seq<char>)
    requires
        forall|i: int| 0 <= i < s.len() ==> kept_as_is(#[trigger] s[i]),
    ensures
        convert_chars(s) == s,
{
    assert forall|i: int| 0 <= i < s.len() implies #[trigger] convert_chars(s)[i] == s[i] by {
        assert(kept_as_is(s[i]));
    }
    assert(convert_chars(s) =~= s);
}

/// ASCII text is left as it is by the conversion.
pub proof fn lemma_ascii_kept(s: Seq<char>)
    requires
        forall|i: int| 0 <= i < s.len() ==> (#[trigger] s[i]) < '\u{80}',
    ensures
        convert_chars(s) == s,
{
    assert forall|i: int| 0 <= i < s.len() implies kept_as_is(#[trigger] s[i]) by {
        assert(simplified_form(s[i]) is None);
    }
    lemma_unlisted_chars_kept(s);
}

/// Normalisation works character by character, so it distributes over
/// joined texts.
pub proof fn lemma_normalize_concat(a: Seq<char>, b: Seq<char>)
    ensures
        normalize(a + b) == normalize(a) + normalize(b),
    decreases b.len(),
{
    if b.len() == 0 {
        assert(a + b =~= a);
        assert(normalize(b) =~= Seq::<char>::empty());
        assert(normalize(a) + normalize(b) =~= normalize(a));
    } else {
        lemma_normalize_concat(a, b.drop_last());
        assert((a + b).drop_last() =~= a + b.drop_last());
        assert((a + b).last() == b.last());
        assert(normalize(a + b) =~= normalize(a) + normalize(b));
    }
}

/// Full-width CJK punctuation goes through `t2s` untouched: a text made only
/// of it is its own conversion and normalisation.
pub proof fn lemma_cjk_punctuation_kept(s: Seq<char>)
    requires
        forall|i: int| 0 <= i < s.len() ==> cjk_punct(#[trigger] s[i]),
    ensures
        normalize(convert_chars(s)) == s,
    decreases s.len(),
{
    assert forall|i: int| 0 <= i < s.len() implies kept_as_is(#[trigger] s[i]) by {
        assert(cjk_punct(s[i]));
        assert(simplified_form(s[i]) is None);
    }
    lemma_unlisted_chars_kept(s);
    if s.len() > 0 {
        lemma_cjk_punctuation_kept(s.drop_last());
        lemma_unlisted_chars_kept(s.drop_last());
        assert(normalize(s) =~= normalize(s.drop_last()) + seq![s.last()]);
    }
}

/// The table lists only real conversions: no character maps to itself.
#[verifier::rlimit(100)]
pub proof fn lemma_table_changes_every_listed_char(c: char)
    ensures
        simplified_form(c) matches Some(d) ==> d != c,
{
}

/// Every simplified form in the table is a CJK Unified Ideograph.
#[verifier::rlimit(100)]
proof fn lemma_table_forms_ideographs(c: char)
    ensures
        simplified_form(c) matches Some(d) ==> cjk_unified(d),
{
}

/// Every simplified form in the table is itself left alone by the table.
#[verifier::rlimit(100)]
proof fn lemma_table_forms_kept(c: char)
    ensures
        simplified_form(c) matches Some(d) ==> kept_as_is(d),
{
}

/// Conversion is idempotent: converting converted text changes nothing.
pub proof fn lemma_convert_idempotent(s: Seq<char>)
    ensures
        convert_chars(convert_chars(s)) == convert_chars(s),
{
    let t = convert_chars(s);
    assert forall|i: int| 0 <= i < t.len() implies #[trigger] convert_at(t, i) == t[i] by {
        lemma_table_forms_kept(s[i]);
        if i + 1 < s.len() {
            lemma_table_forms_kept(s[i + 1]);
        }
    }
    assert(convert_chars(t) =~= t);
}

/// Whether normalisation leaves every character of `s` as it is: each is
/// CJK punctuation or its own NFKC form.
pub open spec fn normalization_fixed(s: Seq<char>) -> bool {
    forall|i: int| 0 <= i < s.len() ==> cjk_punct(#[trigger] s[i]) || nfkc_of(s[i]) == seq![s[i]]
}

proof fn lemma_normalize_fixed(s: Seq<char>)
    requires
        normalization_fixed(s),
    ensures
        normalize(s) == s,
    decreases s.len(),
{
    if s.len() > 0 {
        let p = s.drop_last();
        assert forall|i: int| 0 <= i < p.len() implies cjk_punct(#[trigger] p[i]) || nfkc_of(p[i]) == seq![p[i]] by {
            assert(p[i] == s[i]);
        }
        lemma_normalize_fixed(p);
        let c = s[s.len() - 1];
        assert(cjk_punct(c) || nfkc_of(c) == seq![c]);
        assert(normalize_char(c) == seq![c]);
        assert(p + seq![c] =~= s);
    }
}

/// Each character other than 乾 becomes its simplified form where the
/// table lists one and stays as it is where it does not; 乾 stays before
/// 隆, 坤, 卦, 陵 or 县 and becomes 干 everywhere else, at the end too.
pub proof fn lemma_conversion_per_character(s: Seq<char>, i: int)
    requires
        0 <= i < s.len(),
    ensures
        s[i] != '乾' ==> (simplified_form(s[i]) matches Some(d) ==> convert_chars(s)[i] == d),
        s[i] != '乾' ==> (simplified_form(s[i]) is None ==> convert_chars(s)[i] == s[i]),
        s[i] == '乾' ==> convert_chars(s)[i] == (if i + 1 < s.len() && (s[i + 1] == '隆' || s[i + 1] == '坤'
            || s[i + 1] == '卦' || s[i + 1] == '陵' || s[i + 1] == '县') {
            '乾'
        } else {
            '干'
        }),
{
}

/// The conversion table, pair by pair: each of these traditional
/// characters has the simplified form given here.
#[verifier::rlimit(100)]
pub proof fn lemma_table_pairs()
    ensures
        simplified_form('關') == Some('关'),
        simplified_form('於') == Some('于'),
        simplified_form('這') == Some('这'),
        simplified_form('個') == Some('个'),
        simplified_form('們') == Some('们'),
        simplified_form('來') == Some('来'),
        simplified_form('時') == Some('时'),
        simplified_form('會') == Some('会'),
        simplified_form('對') == Some('对'),
        simplified_form('為') == Some('为'),
        simplified_form('從') == Some('从'),
        simplified_form('說') == Some('说'),
        simplified_form('話') == Some('话'),
        simplified_form('麼') == Some('么'),
        simplified_form('嗎') == Some('吗'),
        simplified_form('過') == Some('过'),
        simplified_form('還') == Some('还'),
        simplified_form('沒') == Some('没'),
        simplified_form('讓') == Some('让'),
        simplified_form('給') == Some('给'),
        simplified_form('請') == Some('请'),
        simplified_form('應') == Some('应'),
        simplified_form('該') == Some('该'),
        simplified_form('當') == Some('当'),
        simplified_form('將') == Some('将'),
        simplified_form('與') == Some('与'),
        simplified_form('並') == Some('并'),
        simplified_form('雲') == Some('云'),
        simplified_form('電') == Some('电'),
        simplified_form('腦') == Some('脑'),
        simplified_form('網') == Some('网'),
        simplified_form('絡') == Some('络'),
        simplified_form('語') == Some('语'),
        simplified_form('識') == Some('识'),
        simplified_form('別') == Some('别'),
        simplified_form('訊') == Some('讯'),
        simplified_form('記') == Some('记'),
        simplified_form('錄') == Some('录'),
        simplified_form('頻') == Some('频'),
        simplified_form('據') == Some('据'),
        simplified_form('務') == Some('务'),
        simplified_form('數') == Some('数'),
        simplified_form('處') == Some('处'),
        simplified_form('變') == Some('变'),
        simplified_form('換') == Some('换'),
        simplified_form('測') == Some('测'),
        simplified_form('試') == Some('试'),
        simplified_form('結') == Some('结'),
        simplified_form('問') == Some('问'),
        simplified_form('題') == Some('题'),
        simplified_form('寫') == Some('写'),
        simplified_form('讀') == Some('读'),
        simplified_form('聽') == Some('听'),
        simplified_form('見') == Some('见'),
        simplified_form('視') == Some('视'),
        simplified_form('覺') == Some('觉'),
        simplified_form('聲') == Some('声'),
        simplified_form('畫') == Some('画'),
        simplified_form('圖') == Some('图'),
        simplified_form('攝') == Some('摄'),
        simplified_form('檔') == Some('档'),
        simplified_form('頁') == Some('页'),
        simplified_form('張') == Some('张'),
        simplified_form('體') == Some('体'),
        simplified_form('積') == Some('积'),
        simplified_form('樣') == Some('样'),
        simplified_form('種') == Some('种'),
        simplified_form('類') == Some('类'),
        simplified_form('項') == Some('项'),
        simplified_form('標') == Some('标'),
        simplified_form('準') == Some('准'),
        simplified_form('單') == Some('单'),
        simplified_form('雙') == Some('双'),
        simplified_form('長') == Some('长'),
        simplified_form('寬') == Some('宽'),
        simplified_form('淺') == Some('浅'),
        simplified_form('輕') == Some('轻'),
        simplified_form('軟') == Some('软'),
        simplified_form('遠') == Some('远'),
        simplified_form('後') == Some('后'),
        simplified_form('裡') == Some('里'),
        simplified_form('內') == Some('内'),
        simplified_form('間') == Some('间'),
        simplified_form('邊') == Some('边'),
        simplified_form('頂') == Some('顶'),
        simplified_form('頭') == Some('头'),
        simplified_form('碼') == Some('码'),
        simplified_form('編') == Some('编'),
        simplified_form('譯') == Some('译'),
        simplified_form('設') == Some('设'),
        simplified_form('計') == Some('计'),
        simplified_form('機') == Some('机'),
        simplified_form('構') == Some('构'),
        simplified_form('組') == Some('组'),
        simplified_form('層') == Some('层'),
        simplified_form('級') == Some('级'),
        simplified_form('線') == Some('线'),
        simplified_form('纜') == Some('缆'),
        simplified_form('總') == Some('总'),
        simplified_form('傳') == Some('传'),
        simplified_form('輸') == Some('输'),
        simplified_form('發') == Some('发'),
        simplified_form('開') == Some('开'),
        simplified_form('啟') == Some('启'),
        simplified_form('閉') == Some('闭'),
        simplified_form('運') == Some('运'),
        simplified_form('進') == Some('进'),
        simplified_form('離') == Some('离'),
        simplified_form('連') == Some('连'),
        simplified_form('斷') == Some('断'),
        simplified_form('續') == Some('续'),
        simplified_form('載') == Some('载'),
        simplified_form('儲') == Some('储'),
        simplified_form('備') == Some('备'),
        simplified_form('刪') == Some('删'),
        simplified_form('舊') == Some('旧'),
        simplified_form('創') == Some('创'),
        simplified_form('減') == Some('减'),
        simplified_form('餘') == Some('余'),
        simplified_form('萬') == Some('万'),
        simplified_form('億') == Some('亿'),
        simplified_form('負') == Some('负'),
        simplified_form('場') == Some('场'),
        simplified_form('鏡') == Some('镜'),
        simplified_form('輯') == Some('辑'),
        simplified_form('製') == Some('制'),
        simplified_form('導') == Some('导'),
        simplified_form('員') == Some('员'),
        simplified_form('樂') == Some('乐'),
        simplified_form('詞') == Some('词'),
        simplified_form('劇') == Some('剧'),
        simplified_form('節') == Some('节'),
        simplified_form('臺') == Some('台'),
        simplified_form('灣') == Some('湾'),
        simplified_form('陸') == Some('陆'),
        simplified_form('講') == Some('讲'),
        simplified_form('辦') == Some('办'),
        simplified_form('幫') == Some('帮'),
        simplified_form('護') == Some('护'),
        simplified_form('愛') == Some('爱'),
        simplified_form('歡') == Some('欢'),
        simplified_form('傷') == Some('伤'),
        simplified_form('壞') == Some('坏'),
        simplified_form('實') == Some('实'),
        simplified_form('虛') == Some('虚'),
        simplified_form('滿') == Some('满'),
        simplified_form('淨') == Some('净'),
        simplified_form('髒') == Some('脏'),
        simplified_form('紅') == Some('红'),
        simplified_form('綠') == Some('绿'),
        simplified_form('藍') == Some('蓝'),
        simplified_form('黃') == Some('黄'),
        simplified_form('髮') == Some('发'),
        simplified_form('幹') == Some('干'),
        simplified_form('裏') == Some('里'),
        simplified_form('週') == Some('周'),
        simplified_form('點') == Some('点'),
        simplified_form('鐘') == Some('钟'),
        simplified_form('國') == Some('国'),
        simplified_form('學') == Some('学'),
        simplified_form('習') == Some('习'),
        simplified_form('師') == Some('师'),
        simplified_form('醫') == Some('医'),
        simplified_form('藝') == Some('艺'),
        simplified_form('術') == Some('术'),
        simplified_form('業') == Some('业'),
        simplified_form('專') == Some('专'),
        simplified_form('職') == Some('职'),
        simplified_form('課') == Some('课'),
        simplified_form('書') == Some('书'),
        simplified_form('眾') == Some('众'),
        simplified_form('廣') == Some('广'),
        simplified_form('廠') == Some('厂'),
        simplified_form('東') == Some('东'),
        simplified_form('門') == Some('门'),
        simplified_form('陽') == Some('阳'),
        simplified_form('陰') == Some('阴'),
        simplified_form('氣') == Some('气'),
        simplified_form('風') == Some('风'),
        simplified_form('園') == Some('园'),
        simplified_form('團') == Some('团'),
        simplified_form('隊') == Some('队'),
        simplified_form('戰') == Some('战'),
        simplified_form('爭') == Some('争'),
        simplified_form('報') == Some('报'),
        simplified_form('紙') == Some('纸'),
        simplified_form('車') == Some('车'),
        simplified_form('飛') == Some('飞'),
        simplified_form('聞') == Some('闻'),
        simplified_form('價') == Some('价'),
        simplified_form('錢') == Some('钱'),
        simplified_form('銀') == Some('银'),
        simplified_form('買') == Some('买'),
        simplified_form('賣') == Some('卖'),
        simplified_form('購') == Some('购'),
        simplified_form('賬') == Some('账'),
        simplified_form('戶') == Some('户'),
        simplified_form('郵') == Some('邮'),
        simplified_form('號') == Some('号'),
        simplified_form('鍵') == Some('键'),
        simplified_form('盤') == Some('盘'),
        simplified_form('條') == Some('条'),
        simplified_form('產') == Some('产'),
        simplified_form('質') == Some('质'),
        simplified_form('優') == Some('优'),
        simplified_form('帶') == Some('带'),
        simplified_form('傘') == Some('伞'),
        simplified_form('熱') == Some('热'),
        simplified_form('驗') == Some('验'),
        simplified_form('觀') == Some('观'),
        simplified_form('確') == Some('确'),
        simplified_form('際') == Some('际'),
        simplified_form('聯') == Some('联'),
        simplified_form('係') == Some('系'),
        simplified_form('統') == Some('统'),
        simplified_form('規') == Some('规'),
        simplified_form('則') == Some('则'),
        simplified_form('資') == Some('资'),
        simplified_form('隱') == Some('隐'),
        simplified_form('權') == Some('权'),
        simplified_form('態') == Some('态'),
        simplified_form('環') == Some('环'),
        simplified_form('監') == Some('监'),
        simplified_form('動') == Some('动'),
        simplified_form('練') == Some('练'),
        simplified_form('訓') == Some('训'),
        simplified_form('療') == Some('疗'),
        simplified_form('藥') == Some('药'),
        simplified_form('鍛') == Some('锻'),
        simplified_form('煉') == Some('炼'),
        simplified_form('慶') == Some('庆'),
        simplified_form('複') == Some('复'),
        simplified_form('復') == Some('复'),
        simplified_form('曆') == Some('历'),
        simplified_form('歷') == Some('历'),
        simplified_form('隻') == Some('只'),
        simplified_form('鬥') == Some('斗'),
        simplified_form('麵') == Some('面'),
        simplified_form('幾') == Some('几'),
        simplified_form('穀') == Some('谷'),
{
}

/// The table lists no other character: whatever it converts is one of the
/// keys above.
#[verifier::rlimit(100)]
pub proof fn lemma_table_keys(c: char)
    ensures
        simplified_form(c) is Some ==> (c == '關' || c == '於' || c == '這' || c == '個' || c == '們' || c == '來' || c == '時' || c == '會'
            || c == '對' || c == '為' || c == '從' || c == '說' || c == '話' || c == '麼' || c == '嗎' || c == '過'
            || c == '還' || c == '沒' || c == '讓' || c == '給' || c == '請' || c == '應' || c == '該' || c == '當'
            || c == '將' || c == '與' || c == '並' || c == '雲' || c == '電' || c == '腦' || c == '網' || c == '絡'
            || c == '語' || c == '識' || c == '別' || c == '訊' || c == '記' || c == '錄' || c == '頻' || c == '據'
            || c == '務' || c == '數' || c == '處' || c == '變' || c == '換' || c == '測' || c == '試' || c == '結'
            || c == '問' || c == '題' || c == '寫' || c == '讀' || c == '聽' || c == '見' || c == '視' || c == '覺'
            || c == '聲' || c == '畫' || c == '圖' || c == '攝' || c == '檔' || c == '頁' || c == '張' || c == '體'
            || c == '積' || c == '樣' || c == '種' || c == '類' || c == '項' || c == '標' || c == '準' || c == '單'
            || c == '雙' || c == '長' || c == '寬' || c == '淺' || c == '輕' || c == '軟' || c == '遠' || c == '後'
            || c == '裡' || c == '內' || c == '間' || c == '邊' || c == '頂' || c == '頭' || c == '碼' || c == '編'
            || c == '譯' || c == '設' || c == '計' || c == '機' || c == '構' || c == '組' || c == '層' || c == '級'
            || c == '線' || c == '纜' || c == '總' || c == '傳' || c == '輸' || c == '發' || c == '開' || c == '啟'
            || c == '閉' || c == '運' || c == '進' || c == '離' || c == '連' || c == '斷' || c == '續' || c == '載'
            || c == '儲' || c == '備' || c == '刪' || c == '舊' || c == '創' || c == '減' || c == '餘' || c == '萬'
            || c == '億' || c == '負' || c == '場' || c == '鏡' || c == '輯' || c == '製' || c == '導' || c == '員'
            || c == '樂' || c == '詞' || c == '劇' || c == '節' || c == '臺' || c == '灣' || c == '陸' || c == '講'
            || c == '辦' || c == '幫' || c == '護' || c == '愛' || c == '歡' || c == '傷' || c == '壞' || c == '實'
            || c == '虛' || c == '滿' || c == '淨' || c == '髒' || c == '紅' || c == '綠' || c == '藍' || c == '黃'
            || c == '髮' || c == '幹' || c == '裏' || c == '週' || c == '點' || c == '鐘' || c == '國' || c == '學'
            || c == '習' || c == '師' || c == '醫' || c == '藝' || c == '術' || c == '業' || c == '專' || c == '職'
            || c == '課' || c == '書' || c == '眾' || c == '廣' || c == '廠' || c == '東' || c == '門' || c == '陽'
            || c == '陰' || c == '氣' || c == '風' || c == '園' || c == '團' || c == '隊' || c == '戰' || c == '爭'
            || c == '報' || c == '紙' || c == '車' || c == '飛' || c == '聞' || c == '價' || c == '錢' || c == '銀'
            || c == '買' || c == '賣' || c == '購' || c == '賬' || c == '戶' || c == '郵' || c == '號' || c == '鍵'
            || c == '盤' || c == '條' || c == '產' || c == '質' || c == '優' || c == '帶' || c == '傘' || c == '熱'
            || c == '驗' || c == '觀' || c == '確' || c == '際' || c == '聯' || c == '係' || c == '統' || c == '規'
            || c == '則' || c == '資' || c == '隱' || c == '權' || c == '態' || c == '環' || c == '監' || c == '動'
            || c == '練' || c == '訓' || c == '療' || c == '藥' || c == '鍛' || c == '煉' || c == '慶' || c == '複'
            || c == '復' || c == '曆' || c == '歷' || c == '隻' || c == '鬥' || c == '麵' || c == '幾' || c == '穀'),
{
}

} // verus!
