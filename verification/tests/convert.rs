//! Traditional-to-Simplified conversion scenarios.

use video_to_srt::convert::t2s;

#[test]
fn converts_common_traditional_to_simplified() {
    assert_eq!(t2s("關於使用阿里雲"), "关于使用阿里云");
    assert_eq!(t2s("電腦網絡"), "电脑网络");
    assert_eq!(t2s("語音識別"), "语音识别");
    assert_eq!(t2s("繁體字"), "繁体字");
}

#[test]
fn preserves_simplified_and_ascii() {
    assert_eq!(t2s("Hello world"), "Hello world");
    assert_eq!(t2s("你好世界"), "你好世界");
    assert_eq!(t2s("中英文混合 hello"), "中英文混合 hello");
    assert_eq!(t2s(""), "");
}

#[test]
fn real_whisper_output_gets_normalized() {
    assert_eq!(t2s("關於使用阿里雲"), "关于使用阿里云");
}

#[test]
fn qian_keeps_proper_noun_readings() {
    // qián 读法（专有名词）必须保留 乾，不得误转成 干。
    assert_eq!(t2s("乾隆皇帝"), "乾隆皇帝");
    assert_eq!(t2s("乾坤"), "乾坤");
    assert_eq!(t2s("乾卦"), "乾卦");
    // gān 读法（干燥）仍正常转成 干。
    assert_eq!(t2s("乾淨"), "干净");
    assert_eq!(t2s("乾燥"), "干燥");
    // 句尾 / 独立出现的 乾 按 gān 处理。
    assert_eq!(t2s("晾乾"), "晾干");
}

#[test]
fn converts_gan_family_characters() {
    // 髮/幹/裏：干 家族中此前缺失的安全映射。
    assert_eq!(t2s("頭髮"), "头发");
    assert_eq!(t2s("幹活"), "干活");
    assert_eq!(t2s("幹部"), "干部");
    assert_eq!(t2s("裏面"), "里面");
}

#[test]
fn one_to_many_pairs_convert_by_context() {
    // 发 家族：發（发送）与 髮（头发）都 → 发；简体 发 原样保留。
    assert_eq!(t2s("發送文件"), "发送文件");
    assert_eq!(t2s("頭髮"), "头发");
    assert_eq!(t2s("发展"), "发展");

    // 干 家族：乾（干燥）→ 干、幹（干活）→ 干、乾（qián）保留；
    // 简体 干 原样保留。
    assert_eq!(t2s("乾淨"), "干净");
    assert_eq!(t2s("幹活"), "干活");
    assert_eq!(t2s("乾隆"), "乾隆");
    assert_eq!(t2s("干杯"), "干杯");

    // 里 家族：裡 与 裏 都 → 里；简体 里（公里）原样保留。
    assert_eq!(t2s("裡面"), "里面");
    assert_eq!(t2s("屋裏"), "屋里");
    assert_eq!(t2s("公里"), "公里");

    // 后 家族：後 → 后；简体/繁体同形的 后（皇后）原样保留。
    assert_eq!(t2s("之後"), "之后");
    assert_eq!(t2s("後面"), "后面");
    assert_eq!(t2s("皇后"), "皇后");
}

#[test]
fn realistic_subtitle_text_converts_cleanly() {
    // 模拟一段真实的 whisper 多语言模型输出（繁简混杂 + 多对一字）。
    let input = "關於使用阿里雲的語音識別服務，我們需要先配置 API Key。\n\
                 乾乾淨淨地處理完這段視頻之後，頭髮也乾了。\n\
                 幹活的時候要注意安全，不要讓機器故障。\n\
                 乾隆皇帝在位期間，這裡面的數據都很重要，請妥善保存。";
    let out = t2s(input);

    // 常见高频字整体转换。
    assert!(out.contains("关于使用阿里云的语音识别服务"));
    assert!(out.contains("我们需要先配置 API Key"));
    assert!(out.contains("不要让机器故障"));
    assert!(out.contains("这里面的数据都很重要"));
    assert!(out.contains("请妥善保存"));
    assert!(out.contains("妥善保存"));
    // 多对一字按上下文正确分流。
    assert!(out.contains("干干净净地处理完这段视频之后")); // 乾(×2)→干、後→后
    assert!(out.contains("头发也干了")); // 髮→发、乾(句尾)→干
    assert!(out.contains("干活的时候")); // 幹→干
    assert!(out.contains("乾隆皇帝在位期间")); // 乾(qián) 保留
    assert!(!out.contains("干隆")); // 不得出现误转
}

#[test]
fn realistic_srt_corpus_regression() {
    // 模拟一份真实 SRT 语料：whisper 多语言模型输出的繁简混杂文本
    // （序号/时间轴为 ASCII，不受转换影响）。全角中文标点必须保留。
    let corpus = "\
1\r\n\
00:00:00,000 --> 00:00:02,500\r\n\
各位觀眾，歡迎收看今晚的新聞報導。\r\n\r\n\
2\r\n\
00:00:02,600 --> 00:00:05,000\r\n\
今天全國各地都在慶祝國慶節，學校和公園裡人山人海。\r\n\r\n\
3\r\n\
00:00:05,100 --> 00:00:08,000\r\n\
老師教我們學習數學和科學，還要練習寫字。\r\n\r\n\
4\r\n\
00:00:08,100 --> 00:00:11,000\r\n\
醫生說要多運動、多鍛煉，身體才會健康。\r\n\r\n\
5\r\n\
00:00:11,100 --> 00:00:14,000\r\n\
公司推出了新產品，價格實惠，質量很好。\r\n\r\n\
6\r\n\
00:00:14,100 --> 00:00:17,000\r\n\
歷史上的乾隆皇帝很有名，大家都聽過他的名字。\r\n\r\n\
7\r\n\
00:00:17,100 --> 00:00:20,000\r\n\
天氣越來越熱，風也很大，記得帶雨傘出門。";
    let out = t2s(corpus);

    // 逐条验证转换后的字幕正文。
    // 注意：報導 → 报导（導→导），而非“报道”。
    assert!(out.contains("各位观众，欢迎收看今晚的新闻报导"));
    assert!(out.contains("今天全国各地都在庆祝国庆节，学校和公园里人山人海"));
    assert!(out.contains("老师教我们学习数学和科学，还要练习写字"));
    assert!(out.contains("医生说要多运动、多锻炼，身体才会健康"));
    assert!(out.contains("公司推出了新产品，价格实惠，质量很好"));
    assert!(out.contains("历史上的乾隆皇帝很有名，大家都听过他的名字"));
    assert!(out.contains("天气越来越热，风也很大，记得带雨伞出门"));
    // 多对一字在真实语料中的正确分流。
    assert!(out.contains("乾隆皇帝")); // 乾(qián) 保留
    assert!(!out.contains("干隆"));
    // 序号与时间轴原样保留。
    assert!(out.contains("00:00:14,100 --> 00:00:17,000"));
}

#[test]
fn nfkc_normalizes_compat_chars_but_keeps_cjk_punctuation() {
    // 兼容字符仍归一化：圈数字、全角数字、全角拉丁字母。
    assert_eq!(t2s("①②③"), "123");
    assert_eq!(t2s("２０２６年"), "2026年");
    assert_eq!(t2s("ＡＢＣ"), "ABC");
    // 中文全角标点保留。
    assert_eq!(t2s("你好，世界！"), "你好，世界！");
    assert_eq!(t2s("他说：“好的”？；（不错）"), "他说：“好的”？；（不错）");
    assert_eq!(t2s("简体、繁體（测试）《標題》"), "简体、繁体（测试）《标题》");
    // 全角数字仍归一化，但紧随的全角标点不受影响。
    assert_eq!(t2s("第１２個，好！"), "第12个，好！");
}

#[test]
fn conversion_is_idempotent_on_examples() {
    for s in ["關於使用阿里雲", "乾隆皇帝", "晾乾", "頭髮也乾了"] {
        let once = t2s(s);
        assert_eq!(t2s(&once), once);
    }
}

#[test]
fn qian_reading_depends_only_on_the_next_character() {
    assert_eq!(t2s("乾"), "干");
    assert_eq!(t2s("乾陵"), "乾陵");
    assert_eq!(t2s("乾县"), "乾县");
    assert_eq!(format!("{}{}", t2s("晾乾"), t2s("衣服")), t2s("晾乾衣服"));
}

#[test]
fn converting_twice_changes_nothing() {
    for s in ["關於使用阿里雲", "乾坤與乾燥，「引號」。", "plain ascii 123", "語音識別測試！"] {
        let once = t2s(s);
        assert_eq!(t2s(&once), once);
        assert_eq!(once.chars().count(), s.chars().count());
    }
}
