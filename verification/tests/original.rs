use img4schemaorg::{div, div_creator, gen_srcset};

  #[test]
  fn success_div() {
    assert_eq!("<div itemscope=\"\" itemtype=\"http://schema.org/ImageObject\" itemprop=\"thumbnail\" style=\"display:none;\">
    <link itemprop=\"contentUrl\" href=\"https://test.com/assets/images/testname_16_9_640_1.jpg\">
    <meta itemprop=\"width\" content=\"640px\">
    <meta itemprop=\"height\" content=\"360px\">
    <meta itemprop=\"name\" content=\"Description in schema block. Размер фото 640x360, отношение сторон 16:9.\">
  </div>
  ", div(16, 9, 640, 360, "https://test.com/assets/images", "testname", "Description in schema block"));
  }

  #[test]
  fn success_gen_srcset() {
    assert_eq!("srcset=\"/path/file_name_o_320_1.jpg 320w,
/path/file_name_o_640_1.jpg 640w,
/path/file_name_o_1280_1.jpg 1280w,
/path/file_name_o_1920_1.jpg 1920w\"",
    gen_srcset("/path", "file_name"));
  }

  #[test]
  fn success_div_creator() {
    assert_eq!("<div itemprop=\"image\" itemscope=\"\" itemtype=\"http://schema.org/ImageObject\" class=\"ImageObject_cont\">
<img decoding=\"async\" itemprop=\"contentUrl\" sizes=\"(max-width: 1280px) 320px, 640px, 1280px\" srcset=\"/assets/upload/test_div_all_o_320_1.jpg 320w,
/assets/upload/test_div_all_o_640_1.jpg 640w,
/assets/upload/test_div_all_o_1280_1.jpg 1280w,
/assets/upload/test_div_all_o_1920_1.jpg 1920w\"
src=\"/assets/upload/test_div_all_1.jpg\"
alt=\"test_div_all alt\">
<meta itemprop=\"name\" content=\"test_div_all meta name\">
<meta itemprop=\"description\" content=\"test_div_all meta description\">
<meta itemprop=\"width\" content=\"2048px\">
<meta itemprop=\"height\" content=\"1536px\">
<div itemscope=\"\" itemtype=\"http://schema.org/ImageObject\" itemprop=\"thumbnail\" style=\"display:none;\">
    <link itemprop=\"contentUrl\" href=\"https://test.domain/assets/upload/test_div_all_1_1_320_1.jpg\">
    <meta itemprop=\"width\" content=\"320px\">
    <meta itemprop=\"height\" content=\"320px\">
    <meta itemprop=\"name\" content=\"test_div_all thumb description. Размер фото 320x320, отношение сторон 1:1.\">
  </div>
  <div itemscope=\"\" itemtype=\"http://schema.org/ImageObject\" itemprop=\"thumbnail\" style=\"display:none;\">
    <link itemprop=\"contentUrl\" href=\"https://test.domain/assets/upload/test_div_all_1_1_640_1.jpg\">
    <meta itemprop=\"width\" content=\"640px\">
    <meta itemprop=\"height\" content=\"640px\">
    <meta itemprop=\"name\" content=\"test_div_all thumb description. Размер фото 640x640, отношение сторон 1:1.\">
  </div>
  <div itemscope=\"\" itemtype=\"http://schema.org/ImageObject\" itemprop=\"thumbnail\" style=\"display:none;\">
    <link itemprop=\"contentUrl\" href=\"https://test.domain/assets/upload/test_div_all_1_1_1280_1.jpg\">
    <meta itemprop=\"width\" content=\"1280px\">
    <meta itemprop=\"height\" content=\"1280px\">
    <meta itemprop=\"name\" content=\"test_div_all thumb description. Размер фото 1280x1280, отношение сторон 1:1.\">
  </div>
  <div itemscope=\"\" itemtype=\"http://schema.org/ImageObject\" itemprop=\"thumbnail\" style=\"display:none;\">
    <link itemprop=\"contentUrl\" href=\"https://test.domain/assets/upload/test_div_all_1_1_1920_1.jpg\">
    <meta itemprop=\"width\" content=\"1920px\">
    <meta itemprop=\"height\" content=\"1920px\">
    <meta itemprop=\"name\" content=\"test_div_all thumb description. Размер фото 1920x1920, отношение сторон 1:1.\">
  </div>
  <div itemscope=\"\" itemtype=\"http://schema.org/ImageObject\" itemprop=\"thumbnail\" style=\"display:none;\">
    <link itemprop=\"contentUrl\" href=\"https://test.domain/assets/upload/test_div_all_4_3_320_1.jpg\">
    <meta itemprop=\"width\" content=\"320px\">
    <meta itemprop=\"height\" content=\"240px\">
    <meta itemprop=\"name\" content=\"test_div_all thumb description. Размер фото 320x240, отношение сторон 4:3.\">
  </div>
  <div itemscope=\"\" itemtype=\"http://schema.org/ImageObject\" itemprop=\"thumbnail\" style=\"display:none;\">
    <link itemprop=\"contentUrl\" href=\"https://test.domain/assets/upload/test_div_all_4_3_640_1.jpg\">
    <meta itemprop=\"width\" content=\"640px\">
    <meta itemprop=\"height\" content=\"480px\">
    <meta itemprop=\"name\" content=\"test_div_all thumb description. Размер фото 640x480, отношение сторон 4:3.\">
  </div>
  <div itemscope=\"\" itemtype=\"http://schema.org/ImageObject\" itemprop=\"thumbnail\" style=\"display:none;\">
    <link itemprop=\"contentUrl\" href=\"https://test.domain/assets/upload/test_div_all_4_3_1280_1.jpg\">
    <meta itemprop=\"width\" content=\"1280px\">
    <meta itemprop=\"height\" content=\"960px\">
    <meta itemprop=\"name\" content=\"test_div_all thumb description. Размер фото 1280x960, отношение сторон 4:3.\">
  </div>
  <div itemscope=\"\" itemtype=\"http://schema.org/ImageObject\" itemprop=\"thumbnail\" style=\"display:none;\">
    <link itemprop=\"contentUrl\" href=\"https://test.domain/assets/upload/test_div_all_4_3_1920_1.jpg\">
    <meta itemprop=\"width\" content=\"1920px\">
    <meta itemprop=\"height\" content=\"1440px\">
    <meta itemprop=\"name\" content=\"test_div_all thumb description. Размер фото 1920x1440, отношение сторон 4:3.\">
  </div>
  <div itemscope=\"\" itemtype=\"http://schema.org/ImageObject\" itemprop=\"thumbnail\" style=\"display:none;\">
    <link itemprop=\"contentUrl\" href=\"https://test.domain/assets/upload/test_div_all_16_9_320_1.jpg\">
    <meta itemprop=\"width\" content=\"320px\">
    <meta itemprop=\"height\" content=\"180px\">
    <meta itemprop=\"name\" content=\"test_div_all thumb description. Размер фото 320x180, отношение сторон 16:9.\">
  </div>
  <div itemscope=\"\" itemtype=\"http://schema.org/ImageObject\" itemprop=\"thumbnail\" style=\"display:none;\">
    <link itemprop=\"contentUrl\" href=\"https://test.domain/assets/upload/test_div_all_16_9_640_1.jpg\">
    <meta itemprop=\"width\" content=\"640px\">
    <meta itemprop=\"height\" content=\"360px\">
    <meta itemprop=\"name\" content=\"test_div_all thumb description. Размер фото 640x360, отношение сторон 16:9.\">
  </div>
  <div itemscope=\"\" itemtype=\"http://schema.org/ImageObject\" itemprop=\"thumbnail\" style=\"display:none;\">
    <link itemprop=\"contentUrl\" href=\"https://test.domain/assets/upload/test_div_all_16_9_854_1.jpg\">
    <meta itemprop=\"width\" content=\"854px\">
    <meta itemprop=\"height\" content=\"480px\">
    <meta itemprop=\"name\" content=\"test_div_all thumb description. Размер фото 854x480, отношение сторон 16:9.\">
  </div>
  <div itemscope=\"\" itemtype=\"http://schema.org/ImageObject\" itemprop=\"thumbnail\" style=\"display:none;\">
    <link itemprop=\"contentUrl\" href=\"https://test.domain/assets/upload/test_div_all_16_9_1280_1.jpg\">
    <meta itemprop=\"width\" content=\"1280px\">
    <meta itemprop=\"height\" content=\"720px\">
    <meta itemprop=\"name\" content=\"test_div_all thumb description. Размер фото 1280x720, отношение сторон 16:9.\">
  </div>
  <div itemscope=\"\" itemtype=\"http://schema.org/ImageObject\" itemprop=\"thumbnail\" style=\"display:none;\">
    <link itemprop=\"contentUrl\" href=\"https://test.domain/assets/upload/test_div_all_16_9_1920_1.jpg\">
    <meta itemprop=\"width\" content=\"1920px\">
    <meta itemprop=\"height\" content=\"1080px\">
    <meta itemprop=\"name\" content=\"test_div_all thumb description. Размер фото 1920x1080, отношение сторон 16:9.\">
  </div>
  \n</div>",
    div_creator("https://test.domain/assets/upload|test_div_all|test_div_all thumb description|test_div_all alt|test_div_all meta name|test_div_all meta description|1:1_320x320,640x640,1280x1280,1920x1920;4:3_320x240,640x480,1280x960,1920x1440;16:9_320x180,640x360,854x480,1280x720,1920x1080", "2048", "1536"));
  }
